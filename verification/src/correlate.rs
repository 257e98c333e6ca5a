//! Joining MIR decisions with runtime coverage data.
//!
//! Every atomic condition of the MIR is also a branch region of the coverage
//! export, at the same source span. The join here pairs every MIR function
//! with the counts of its conditions, keyed by their source names.
use crate::decision::{evaluate_partial, value_of, DecisionTree, DecisionTreeView};
use crate::masking::{ConditionObservation, ObservationView};
use crate::mir::names::name_of;
use crate::mir::{
    BlockView, FunctionView, LocalId, Mir, MirBlock, MirFunction, MirStatement, MirTerminator,
    MirView, SourceSpan, SpanView, StatementView, TerminatorView,
};
use crate::ordered::NameMap;
use crate::profile::{
    Branch, BranchView, CoverageReport, CoverageView, FunctionCoverage, FunctionCoverageView,
};
use crate::text::{
    begins_with, chars_of, cut_last, ends_in, ends_with, first_from, is_text, rsplit_once, same_text,
};
use vstd::prelude::*;
use vstd::string::*;

pub mod laws;

verus! {

/// The result of joining MIR decision structure with runtime coverage data.
///
/// Carries one [`FunctionRuntime`] per MIR function. Functions for which no
/// matching coverage entry was found are still present; their `conditions`
/// map is empty.
#[derive(Debug, Clone)]
pub struct DecisionMap {
    /// Per-function runtime data, in MIR-declaration order.
    pub functions: Vec<FunctionRuntime>,
}

/// The model of a [`DecisionMap`].
pub struct DecisionMapView {
    pub functions: Seq<FunctionRuntimeView>,
}

impl DeepView for DecisionMap {
    type V = DecisionMapView;

    open spec fn deep_view(&self) -> DecisionMapView {
        DecisionMapView { functions: self.functions.deep_view() }
    }
}

impl Default for DecisionMap {
    fn default() -> (r: Self)
        ensures
            r.functions@ == Seq::<FunctionRuntime>::empty(),
    {
        DecisionMap { functions: Vec::new() }
    }
}

/// Runtime coverage data for one function's atomic conditions.
#[derive(Debug, Clone)]
pub struct FunctionRuntime {
    /// Function name as it appears in the MIR (unmangled).
    pub name: String,
    /// Per-condition runtime data, keyed by source name.
    pub conditions: NameMap<ConditionRuntime>,
}

/// The model of a [`FunctionRuntime`].
#[verifier::ext_equal]
pub struct FunctionRuntimeView {
    pub name: Seq<char>,
    pub conditions: Map<Seq<char>, ConditionRuntimeView>,
}

impl DeepView for FunctionRuntime {
    type V = FunctionRuntimeView;

    open spec fn deep_view(&self) -> FunctionRuntimeView {
        FunctionRuntimeView { name: self.name@, conditions: counts_view(self.conditions@) }
    }
}

/// The models of the counts in a map.
pub open spec fn counts_view(m: Map<Seq<char>, ConditionRuntime>) -> Map<
    Seq<char>,
    ConditionRuntimeView,
> {
    m.map_values(|c: ConditionRuntime| c.deep_view())
}

/// Runtime counts for one atomic condition, joined to its MIR source
/// location.
#[derive(Debug, Clone, PartialEq, Eq)]
pub struct ConditionRuntime {
    /// The source span where this condition appears in the program.
    pub span: SourceSpan,
    /// Number of times the condition evaluated true across the runs
    /// represented by the [`CoverageReport`].
    pub true_count: u64,
    /// Number of times the condition evaluated false.
    pub false_count: u64,
}

/// The model of a [`ConditionRuntime`].
pub struct ConditionRuntimeView {
    pub span: SpanView,
    pub true_count: u64,
    pub false_count: u64,
}

impl DeepView for ConditionRuntime {
    type V = ConditionRuntimeView;

    open spec fn deep_view(&self) -> ConditionRuntimeView {
        ConditionRuntimeView {
            span: self.span.deep_view(),
            true_count: self.true_count,
            false_count: self.false_count,
        }
    }
}

// ---------------------------------------------------------------------------
// Condition spans
// ---------------------------------------------------------------------------

/// A map of spans with one more, unless the name has one.
pub open spec fn with_span(
    spans: Map<Seq<char>, SpanView>,
    f: FunctionView,
    local: LocalId,
    span: Option<SpanView>,
) -> Map<Seq<char>, SpanView> {
    match span {
        Some(s) => if f.debug_names.contains_key(local) && !spans.contains_key(
            f.debug_names[local],
        ) {
            spans.insert(f.debug_names[local], s)
        } else {
            spans
        },
        None => spans,
    }
}

/// The spans with that of a tested condition.
pub open spec fn with_test_span(
    spans: Map<Seq<char>, SpanView>,
    f: FunctionView,
    t: TerminatorView,
) -> Map<Seq<char>, SpanView> {
    match t {
        TerminatorView::SwitchInt { discr, span, .. } => with_span(spans, f, discr, span),
        _ => spans,
    }
}

/// The spans with those of the conditions that statements read.
pub open spec fn with_read_spans(
    spans: Map<Seq<char>, SpanView>,
    f: FunctionView,
    statements: Seq<StatementView>,
) -> Map<Seq<char>, SpanView>
    decreases statements.len(),
{
    if statements.len() == 0 {
        spans
    } else {
        let next = match statements[0] {
            StatementView::AssignCopy { src, span, .. } => with_span(spans, f, src, span),
            _ => spans,
        };
        with_read_spans(next, f, statements.skip(1))
    }
}

/// The spans with those of the conditions of blocks: of each block first the
/// condition it tests, then those it reads.
pub open spec fn with_block_spans(
    spans: Map<Seq<char>, SpanView>,
    f: FunctionView,
    blocks: Seq<BlockView>,
) -> Map<Seq<char>, SpanView>
    decreases blocks.len(),
{
    if blocks.len() == 0 {
        spans
    } else {
        with_block_spans(
            with_read_spans(
                with_test_span(spans, f, blocks[0].terminator),
                f,
                blocks[0].statements,
            ),
            f,
            blocks.skip(1),
        )
    }
}

/// The span of every named condition of a function, by its first occurrence.
pub open spec fn condition_spans(f: FunctionView) -> Map<Seq<char>, SpanView> {
    with_block_spans(Map::empty(), f, f.blocks)
}

/// The models of the spans in a map.
pub open spec fn spans_view(m: Map<Seq<char>, SourceSpan>) -> Map<Seq<char>, SpanView> {
    m.map_values(|s: SourceSpan| s.deep_view())
}

/// A copy of a span.
fn span_copy(s: &SourceSpan) -> (r: SourceSpan)
    ensures
        r == *s,
{
    SourceSpan {
        file: s.file.clone(),
        start_line: s.start_line,
        start_col: s.start_col,
        end_line: s.end_line,
        end_col: s.end_col,
    }
}

/// Whether two spans are the same.
fn same_span(a: &SourceSpan, b: &SourceSpan) -> (r: bool)
    ensures
        r == (a.deep_view() == b.deep_view()),
{
    a.start_line == b.start_line && a.start_col == b.start_col && a.end_line == b.end_line
        && a.end_col == b.end_col && same_text(a.file.as_str(), b.file.as_str())
}

/// Adds the span of a local's name, unless the name has one.
fn add_span(
    spans: &mut NameMap<SourceSpan>,
    f: &MirFunction,
    local: LocalId,
    span: &Option<SourceSpan>,
)
    ensures
        spans_view(final(spans)@) == with_span(
            spans_view(old(spans)@),
            f.deep_view(),
            local,
            span.deep_view(),
        ),
{
    let ghost before = spans_view(spans@);
    if let Some(s) = span {
        if let Some(name) = name_of(&f.debug_names, local) {
            if !spans.contains_key(name.as_str()) {
                let copy = span_copy(s);
                spans.insert(name, copy);
                assert(spans_view(spans@) =~= before.insert(name@, s.deep_view()));
            }
        }
    }
}

/// Adds the spans of the conditions of one block.
fn add_block_spans(spans: &mut NameMap<SourceSpan>, f: &MirFunction, block: &MirBlock)
    ensures
        spans_view(final(spans)@) == with_read_spans(
            with_test_span(
                spans_view(old(spans)@),
                f.deep_view(),
                block.deep_view().terminator,
            ),
            f.deep_view(),
            block.deep_view().statements,
        ),
{
    if let MirTerminator::SwitchInt { discr, span, .. } = &block.terminator {
        add_span(spans, f, *discr, span);
    }
    let ghost all = block.statements.deep_view();
    let ghost start = spans_view(spans@);
    let mut i: usize = 0;
    assert(all.skip(0) =~= all);
    while i < block.statements.len()
        invariant
            i <= block.statements@.len(),
            all == block.statements.deep_view(),
            with_read_spans(start, f.deep_view(), all) == with_read_spans(
                spans_view(spans@),
                f.deep_view(),
                all.skip(i as int),
            ),
        decreases block.statements@.len() - i,
    {
        assert(all.skip(i as int)[0] == block.statements@[i as int].deep_view());
        assert(all.skip(i as int).skip(1) =~= all.skip(i + 1));
        if let MirStatement::AssignCopy { src, span, .. } = &block.statements[i] {
            add_span(spans, f, *src, span);
        }
        i += 1;
    }
    assert(all.skip(i as int) =~= seq![]);
}

/// Collects the span of every named condition of a function. Both `switchInt`
/// discriminants and the sources of copies are considered; the first
/// occurrence wins.
fn collect_condition_spans(f: &MirFunction) -> (r: NameMap<SourceSpan>)
    ensures
        spans_view(r@) == condition_spans(f.deep_view()),
{
    let mut spans: NameMap<SourceSpan> = NameMap::new();
    let ghost all = f.blocks.deep_view();
    let mut i: usize = 0;
    assert(spans_view(spans@) =~= Map::empty());
    assert(all.skip(0) =~= all);
    while i < f.blocks.len()
        invariant
            i <= f.blocks@.len(),
            all == f.blocks.deep_view(),
            condition_spans(f.deep_view()) == with_block_spans(
                spans_view(spans@),
                f.deep_view(),
                all.skip(i as int),
            ),
        decreases f.blocks@.len() - i,
    {
        assert(all.skip(i as int)[0] == f.blocks@[i as int].deep_view());
        assert(all.skip(i as int).skip(1) =~= all.skip(i + 1));
        add_block_spans(&mut spans, f, &f.blocks[i]);
        i += 1;
    }
    assert(all.skip(i as int) =~= seq![]);
    spans
}

// ---------------------------------------------------------------------------
// Function names
// ---------------------------------------------------------------------------

/// The readable form of a mangled symbol.
pub uninterp spec fn demangled(symbol: Seq<char>) -> Seq<char>;

/// Whether a symbol begins as mangled ones do, or carries a mark of
/// link-time optimisation.
pub open spec fn looks_mangled(symbol: Seq<char>) -> bool {
    begins_with(symbol, "_ZN"@) || begins_with(symbol, "ZN"@) || begins_with(symbol, "__ZN"@)
        || begins_with(symbol, "_R"@) || begins_with(symbol, "R"@) || begins_with(symbol, "__R"@)
        || first_from(symbol, ".llvm."@, 0) is Some
}

/// The readable form of a symbol: one that does not look mangled is readable
/// as it is.
pub open spec fn readable(symbol: Seq<char>) -> Seq<char> {
    if looks_mangled(symbol) {
        demangled(symbol)
    } else {
        symbol
    }
}

/// `rustc_demangle::demangle`, printed: the readable form of a mangled Rust
/// symbol. It depends on the symbol alone, and the contract names it. Of a
/// symbol that begins with none of the mangling prefixes and holds no
/// `.llvm.` the contract claims that it is handed back unchanged.
#[verifier::external_body]
fn demangle(symbol: &str) -> (r: String)
    ensures
        looks_mangled(symbol@) ==> r@ == demangled(symbol@),
        !looks_mangled(symbol@) ==> r@ == symbol@,
{
    rustc_demangle::demangle(symbol).to_string()
}

/// Whether `c` is a hexadecimal digit.
pub open spec fn is_hex_digit(c: char) -> bool {
    '0' as u32 <= c as u32 <= '9' as u32 || 'a' as u32 <= c as u32 <= 'f' as u32 || 'A' as u32
        <= c as u32 <= 'F' as u32
}

/// Whether `s` begins with `n` hexadecimal digits that reach to its end or to
/// a `.` that begins a suffix.
pub open spec fn is_hash_of(s: Seq<char>, n: int) -> bool {
    0 < n <= s.len() && (forall|i: int| 0 <= i < n ==> is_hex_digit(#[trigger] s[i])) && (n
        == s.len() || s[n] == '.')
}

/// Whether `s` is the hash of a legacy symbol, behind its `h`: hexadecimal
/// digits, at least one, at the end or before a `.` that begins a suffix.
pub open spec fn is_symbol_hash(s: Seq<char>) -> bool {
    exists|n: int| is_hash_of(s, n)
}

/// A readable symbol without the hash that ends a legacy one, and without
/// what follows it.
pub open spec fn without_hash(symbol: Seq<char>) -> Seq<char> {
    match cut_last(symbol, "::h"@) {
        Some((path, hash)) => if is_symbol_hash(hash) {
            path
        } else {
            symbol
        },
        None => symbol,
    }
}

/// The last segment of a path.
pub open spec fn last_segment(path: Seq<char>) -> Seq<char> {
    match cut_last(path, "::"@) {
        Some((_, segment)) => segment,
        None => path,
    }
}

/// Whether a path is that of a function with the given name: it is the name,
/// ends in `::` and the name, or has the name as last segment.
pub open spec fn path_names(path: Seq<char>, name: Seq<char>) -> bool {
    path == name || ends_in(path, "::"@ + name) || last_segment(path) == name
}

/// Whether a readable symbol is that of a function with the given name: its
/// path without the hash names the function, or its path as it stands does. A
/// name such as `head` reads as a hash too, and is found as it stands.
pub open spec fn symbol_names(symbol: Seq<char>, name: Seq<char>) -> bool {
    path_names(without_hash(symbol), name) || path_names(symbol, name)
}

/// Whether `c` is a hexadecimal digit.
fn is_hex(c: char) -> (r: bool)
    ensures
        r == is_hex_digit(c),
{
    let n: u32 = c as u32;
    (48 <= n && n <= 57) || (97 <= n && n <= 102) || (65 <= n && n <= 70)
}

/// Whether `s` is the hash of a legacy symbol.
fn is_hash(s: &[char]) -> (r: bool)
    ensures
        r == is_symbol_hash(s@),
{
    let mut i: usize = 0;
    while i < s.len() && is_hex(s[i])
        invariant
            i <= s@.len(),
            forall|k: int| 0 <= k < i ==> is_hex_digit(#[trigger] s@[k]),
        decreases s@.len() - i,
    {
        i += 1;
    }
    let found = i > 0 && (i == s.len() || s[i] == '.');
    proof {
        if found {
            assert(is_hash_of(s@, i as int));
        } else if is_symbol_hash(s@) {
            let n = choose|n: int| is_hash_of(s@, n);
            if n < i {
                assert(is_hex_digit(s@[n]));
            } else if i < n {
                assert(is_hex_digit(s@[i as int]));
            }
        }
    }
    found
}

/// Whether a path is that of a function with the given name.
fn path_matches(path: &[char], name: &str) -> (r: bool)
    ensures
        r == path_names(path@, name@),
{
    let mut tail = String::new();
    tail.append("::");
    tail.append(name);
    assert(tail@ =~= "::"@ + name@);
    let segment = match rsplit_once(path, "::") {
        Some((_, segment)) => segment,
        None => path,
    };
    is_text(path, name) || ends_with(path, tail.as_str()) || is_text(segment, name)
}

/// Whether a readable symbol is that of a function with the given MIR name.
pub fn symbol_matches(symbol: &str, mir_name: &str) -> (r: bool)
    ensures
        r == symbol_names(symbol@, mir_name@),
{
    let chars = chars_of(symbol);
    let path = match rsplit_once(chars.as_slice(), "::h") {
        Some((path, hash)) => if is_hash(hash) {
            path
        } else {
            chars.as_slice()
        },
        None => chars.as_slice(),
    };
    path_matches(path, mir_name) || path_matches(chars.as_slice(), mir_name)
}

/// The first function whose symbol is the given name.
pub open spec fn function_named(functions: Seq<FunctionCoverageView>, name: Seq<char>) -> Option<
    FunctionCoverageView,
>
    decreases functions.len(),
{
    if functions.len() == 0 {
        None
    } else if functions[0].name == name {
        Some(functions[0])
    } else {
        function_named(functions.skip(1), name)
    }
}

/// The first function whose readable symbol is that of the given name.
pub open spec fn function_demangled(
    functions: Seq<FunctionCoverageView>,
    name: Seq<char>,
) -> Option<FunctionCoverageView>
    decreases functions.len(),
{
    if functions.len() == 0 {
        None
    } else if symbol_names(readable(functions[0].name), name) {
        Some(functions[0])
    } else {
        function_demangled(functions.skip(1), name)
    }
}

/// The coverage of a MIR function: by its symbol as it is, else by its
/// readable form.
pub open spec fn coverage_of(functions: Seq<FunctionCoverageView>, name: Seq<char>) -> Option<
    FunctionCoverageView,
> {
    match function_named(functions, name) {
        Some(f) => Some(f),
        None => function_demangled(functions, name),
    }
}

/// Finds the coverage entry whose symbol name matches the given MIR function
/// name: exactly, else by its readable form.
fn find_matching_function<'a>(mir_name: &str, coverage: &'a CoverageReport) -> (r: Option<
    &'a FunctionCoverage,
>)
    ensures
        r.deep_view() == coverage_of(coverage.deep_view().functions, mir_name@),
{
    let ghost all = coverage.functions.deep_view();
    let mut i: usize = 0;
    assert(all.skip(0) =~= all);
    while i < coverage.functions.len()
        invariant
            i <= coverage.functions@.len(),
            all == coverage.functions.deep_view(),
            function_named(all, mir_name@) == function_named(all.skip(i as int), mir_name@),
        decreases coverage.functions@.len() - i,
    {
        assert(all.skip(i as int)[0] == coverage.functions@[i as int].deep_view());
        assert(all.skip(i as int).skip(1) =~= all.skip(i + 1));
        if same_text(coverage.functions[i].name.as_str(), mir_name) {
            return Some(&coverage.functions[i]);
        }
        i += 1;
    }
    assert(function_named(all, mir_name@) is None);
    let mut k: usize = 0;
    while k < coverage.functions.len()
        invariant
            k <= coverage.functions@.len(),
            all == coverage.functions.deep_view(),
            function_named(all, mir_name@) is None,
            function_demangled(all, mir_name@) == function_demangled(
                all.skip(k as int),
                mir_name@,
            ),
        decreases coverage.functions@.len() - k,
    {
        assert(all.skip(k as int)[0] == coverage.functions@[k as int].deep_view());
        assert(all.skip(k as int).skip(1) =~= all.skip(k + 1));
        let symbol = demangle(coverage.functions[k].name.as_str());
        if symbol_matches(symbol.as_str(), mir_name) {
            return Some(&coverage.functions[k]);
        }
        k += 1;
    }
    None
}

// ---------------------------------------------------------------------------
// The join
// ---------------------------------------------------------------------------

/// The first branch at a span.
pub open spec fn branch_at(branches: Seq<BranchView>, span: SpanView) -> Option<BranchView>
    decreases branches.len(),
{
    if branches.len() == 0 {
        None
    } else if branches[0].span == span {
        Some(branches[0])
    } else {
        branch_at(branches.skip(1), span)
    }
}

/// The counts of each condition that has a branch at its span.
pub open spec fn joined(
    spans: Map<Seq<char>, SpanView>,
    branches: Seq<BranchView>,
) -> Map<Seq<char>, ConditionRuntimeView> {
    Map::new(
        |n: Seq<char>| spans.contains_key(n) && branch_at(branches, spans[n]) is Some,
        |n: Seq<char>|
            ConditionRuntimeView {
                span: spans[n],
                true_count: (branch_at(branches, spans[n])->0).true_count,
                false_count: (branch_at(branches, spans[n])->0).false_count,
            },
    )
}

/// The runtime data of a MIR function.
pub open spec fn runtime_of(f: FunctionView, coverage: CoverageView) -> FunctionRuntimeView {
    FunctionRuntimeView {
        name: f.name,
        conditions: match coverage_of(coverage.functions, f.name) {
            Some(c) => joined(condition_spans(f), c.branches),
            None => Map::empty(),
        },
    }
}

/// The runtime data of every MIR function, in order.
pub open spec fn correlated(mir: MirView, coverage: CoverageView) -> DecisionMapView {
    DecisionMapView {
        functions: mir.functions.map_values(|f: FunctionView| runtime_of(f, coverage)),
    }
}

/// Finds the first branch at a span.
fn find_branch<'a>(branches: &'a Vec<Branch>, span: &SourceSpan) -> (r: Option<&'a Branch>)
    ensures
        r.deep_view() == branch_at(branches.deep_view(), span.deep_view()),
{
    let ghost all = branches.deep_view();
    let mut i: usize = 0;
    assert(all.skip(0) =~= all);
    while i < branches.len()
        invariant
            i <= branches@.len(),
            all == branches.deep_view(),
            branch_at(all, span.deep_view()) == branch_at(all.skip(i as int), span.deep_view()),
        decreases branches@.len() - i,
    {
        assert(all.skip(i as int)[0] == branches@[i as int].deep_view());
        assert(all.skip(i as int).skip(1) =~= all.skip(i + 1));
        if same_span(&branches[i].span, span) {
            return Some(&branches[i]);
        }
        i += 1;
    }
    None
}

/// Joins the spans of conditions with the branches at them.
fn join(spans: &NameMap<SourceSpan>, branches: &Vec<Branch>) -> (r: NameMap<ConditionRuntime>)
    ensures
        counts_view(r@) == joined(spans_view(spans@), branches.deep_view()),
{
    let mut out: NameMap<ConditionRuntime> = NameMap::new();
    let n: usize = spans.len();
    let ghost names = spans.order();
    let ghost expected = joined(spans_view(spans@), branches.deep_view());
    let mut i: usize = 0;
    while i < n
        invariant
            i <= n,
            n == names.len(),
            names == spans.order(),
            names.no_duplicates(),
            names.to_set() == spans@.dom(),
            expected == joined(spans_view(spans@), branches.deep_view()),
            forall|s: Seq<char>|
                #[trigger] out@.contains_key(s) <==> expected.contains_key(s) && exists|j: int|
                    0 <= j < i && #[trigger] names[j] == s,
            forall|s: Seq<char>| #[trigger]
                out@.contains_key(s) ==> out@[s].deep_view() == expected[s],
        decreases n - i,
    {
        let ghost before = out@;
        let name = spans.name_at(i);
        let span = spans.value_at(i);
        assert(spans_view(spans@)[name@] == span.deep_view());
        if let Some(branch) = find_branch(branches, span) {
            let counts = ConditionRuntime {
                span: span_copy(span),
                true_count: branch.true_count,
                false_count: branch.false_count,
            };
            out.insert(name.clone(), counts);
            assert(expected.contains_key(name@));
            assert(counts.deep_view() == expected[name@]);
        } else {
            assert(!expected.contains_key(name@));
        }
        assert forall|s: Seq<char>| #[trigger] out@.contains_key(s) <==> expected.contains_key(s)
            && exists|j: int| 0 <= j < i + 1 && #[trigger] names[j] == s by {
            assert(names[i as int] == name@);
            if before.contains_key(s) {
                let j = choose|j: int| 0 <= j < i && #[trigger] names[j] == s;
                assert(names[j] == s);
            }
            if expected.contains_key(s) && exists|j: int|
                0 <= j < i + 1 && #[trigger] names[j] == s {
                let j = choose|j: int| 0 <= j < i + 1 && #[trigger] names[j] == s;
                if j < i {
                    assert(before.contains_key(s));
                }
            }
        }
        i += 1;
    }
    assert forall|s: Seq<char>| expected.contains_key(s) implies out@.contains_key(s) by {
        assert(names.to_set().contains(s));
        let j = choose|j: int| 0 <= j < names.len() && names[j] == s;
        assert(names[j] == s);
    }
    assert(counts_view(out@) =~= expected);
    out
}

/// Joins MIR decisions to runtime coverage data by source span.
///
/// Functions are matched by unmangled name and conditions by equal
/// [`SourceSpan`]. What finds no match is missing from the result rather than
/// guessed at.
pub fn correlate(mir: &Mir, coverage: &CoverageReport) -> (r: DecisionMap)
    ensures
        r.deep_view() == correlated(mir.deep_view(), coverage.deep_view()),
{
    let ghost all = mir.functions.deep_view();
    let ghost expected = correlated(mir.deep_view(), coverage.deep_view()).functions;
    let mut functions: Vec<FunctionRuntime> = Vec::new();
    let mut i: usize = 0;
    while i < mir.functions.len()
        invariant
            i <= mir.functions@.len(),
            all == mir.functions.deep_view(),
            expected == correlated(mir.deep_view(), coverage.deep_view()).functions,
            functions@.len() == i,
            forall|k: int| 0 <= k < i ==> (#[trigger] functions@[k]).deep_view() == expected[k],
        decreases mir.functions@.len() - i,
    {
        let f = &mir.functions[i];
        assert(all[i as int] == f.deep_view());
        let spans = collect_condition_spans(f);
        let conditions = match find_matching_function(f.name.as_str(), coverage) {
            Some(c) => join(&spans, &c.branches),
            None => NameMap::new(),
        };
        let runtime = FunctionRuntime { name: f.name.clone(), conditions };
        assert(runtime.deep_view() =~= expected[i as int]);
        functions.push(runtime);
        i += 1;
    }
    let r = DecisionMap { functions };
    assert(r.functions.deep_view() =~= expected);
    r
}

// ---------------------------------------------------------------------------
// Observations
// ---------------------------------------------------------------------------

/// The values that counts stand for: true if the condition was ever true,
/// else false if it was ever false. A condition that was never evaluated is
/// absent.
pub open spec fn evaluated(conditions: Map<Seq<char>, ConditionRuntimeView>) -> Map<
    Seq<char>,
    bool,
> {
    Map::new(
        |n: Seq<char>|
            conditions.contains_key(n) && (conditions[n].true_count > 0 || conditions[n].false_count
                > 0),
        |n: Seq<char>| conditions[n].true_count > 0,
    )
}

/// The values of the conditions of some functions; a later function's value
/// replaces an earlier one's.
pub open spec fn observed_inputs(functions: Seq<FunctionRuntimeView>) -> Map<Seq<char>, bool>
    decreases functions.len(),
{
    if functions.len() == 0 {
        Map::empty()
    } else {
        observed_inputs(functions.drop_last()).union_prefer_right(
            evaluated(functions.last().conditions),
        )
    }
}

/// The observation of a single test: the values of the conditions, and the
/// value that the first decision has under them, if they settle it.
pub open spec fn observation_of(
    test_name: Option<Seq<char>>,
    mir: MirView,
    coverage: CoverageView,
    tree: DecisionTreeView,
) -> Option<ObservationView> {
    let inputs = observed_inputs(correlated(mir, coverage).functions);
    if tree.decisions.len() == 0 {
        None
    } else {
        match value_of(tree.decisions[0], inputs) {
            Some(result) => Some(ObservationView { test_name, inputs, result }),
            None => None,
        }
    }
}

/// Adds the values of the conditions of one function.
fn add_values(inputs: &mut NameMap<bool>, conditions: &NameMap<ConditionRuntime>)
    ensures
        final(inputs)@ == old(inputs)@.union_prefer_right(evaluated(counts_view(conditions@))),
{
    let n: usize = conditions.len();
    let ghost names = conditions.order();
    let ghost start = inputs@;
    let ghost values = evaluated(counts_view(conditions@));
    let mut i: usize = 0;
    while i < n
        invariant
            i <= n,
            n == names.len(),
            names == conditions.order(),
            names.no_duplicates(),
            names.to_set() == conditions@.dom(),
            values == evaluated(counts_view(conditions@)),
            forall|s: Seq<char>|
                #[trigger] inputs@.contains_key(s) <==> start.contains_key(s) || (
                values.contains_key(s) && exists|j: int| 0 <= j < i && #[trigger] names[j] == s),
            forall|j: int|
                0 <= j < i && values.contains_key(#[trigger] names[j]) ==> inputs@[names[j]]
                    == values[names[j]],
            forall|s: Seq<char>|
                start.contains_key(s) && !(values.contains_key(s) && exists|j: int|
                    0 <= j < i && #[trigger] names[j] == s) ==> #[trigger] inputs@[s] == start[s],
        decreases n - i,
    {
        let ghost before = inputs@;
        let name = conditions.name_at(i);
        let counts = conditions.value_at(i);
        assert(names[i as int] == name@);
        assert(counts_view(conditions@)[name@] == counts.deep_view());
        if counts.true_count > 0 {
            inputs.insert(name.clone(), true);
        } else if counts.false_count > 0 {
            inputs.insert(name.clone(), false);
        }
        assert forall|s: Seq<char>| #[trigger] inputs@.contains_key(s) <==> start.contains_key(s)
            || (values.contains_key(s) && exists|j: int|
            0 <= j < i + 1 && #[trigger] names[j] == s) by {
            if before.contains_key(s) && !start.contains_key(s) {
                let j = choose|j: int| 0 <= j < i && #[trigger] names[j] == s;
                assert(names[j] == s);
            }
            if values.contains_key(s) && exists|j: int|
                0 <= j < i + 1 && #[trigger] names[j] == s {
                let j = choose|j: int| 0 <= j < i + 1 && #[trigger] names[j] == s;
                if j < i {
                    assert(before.contains_key(s));
                }
            }
        }
        assert forall|j: int|
            0 <= j < i + 1 && values.contains_key(#[trigger] names[j]) implies inputs@[names[j]]
            == values[names[j]] by {
            if j < i {
                assert(names[j] != names[i as int]);
            }
        }
        assert forall|s: Seq<char>|
            start.contains_key(s) && !(values.contains_key(s) && exists|j: int|
                0 <= j < i + 1 && #[trigger] names[j] == s) implies #[trigger] inputs@[s]
            == start[s] by {
            assert(before[s] == start[s]) by {
                if values.contains_key(s) && exists|j: int|
                    0 <= j < i && #[trigger] names[j] == s {
                    let j = choose|j: int| 0 <= j < i && #[trigger] names[j] == s;
                    assert(names[j] == s);
                }
            }
            if s == name@ && values.contains_key(s) {
                assert(names[i as int] == s);
            }
        }
        i += 1;
    }
    assert forall|s: Seq<char>| values.contains_key(s) implies exists|j: int|
        0 <= j < n && #[trigger] names[j] == s by {
        assert(names.to_set().contains(s));
        let j = choose|j: int| 0 <= j < names.len() && names[j] == s;
        assert(names[j] == s);
    }
    assert forall|s: Seq<char>| #[trigger] inputs@.contains_key(s) implies inputs@[s]
        == start.union_prefer_right(values)[s] by {
        if values.contains_key(s) {
            let j = choose|j: int| 0 <= j < n && #[trigger] names[j] == s;
            assert(inputs@[names[j]] == values[names[j]]);
        }
    }
    assert(inputs@ =~= start.union_prefer_right(values));
}

/// Builds a [`ConditionObservation`] from a single-test [`CoverageReport`], a
/// [`Mir`] and a [`DecisionTree`].
///
/// For each condition that [`correlate`] finds counts for, the value is
/// `true` if it was ever true, `false` if it was only ever false, and absent
/// if it was not evaluated. The result is that of the first decision under
/// these values. Returns `None` if the tree is empty or the decision needs a
/// condition that was not observed.
pub fn observation_from_coverage(
    test_name: Option<String>,
    mir: &Mir,
    coverage: &CoverageReport,
    tree: &DecisionTree,
) -> (r: Option<ConditionObservation>)
    ensures
        r.deep_view() == observation_of(
            test_name.deep_view(),
            mir.deep_view(),
            coverage.deep_view(),
            tree.deep_view(),
        ),
{
    let map = correlate(mir, coverage);
    let ghost all = map.functions.deep_view();
    let mut inputs: NameMap<bool> = NameMap::new();
    let mut i: usize = 0;
    assert(all.take(0) =~= seq![]);
    while i < map.functions.len()
        invariant
            i <= map.functions@.len(),
            all == map.functions.deep_view(),
            inputs@ == observed_inputs(all.take(i as int)),
        decreases map.functions@.len() - i,
    {
        assert(all.take(i + 1).drop_last() =~= all.take(i as int));
        assert(all.take(i + 1).last() == map.functions@[i as int].deep_view());
        add_values(&mut inputs, &map.functions[i].conditions);
        i += 1;
    }
    assert(all.take(i as int) =~= all);
    if tree.decisions.len() == 0 {
        return None;
    }
    assert(tree.deep_view().decisions[0] == tree.decisions@[0].deep_view());
    match evaluate_partial(&tree.decisions[0], &inputs) {
        Some(result) => Some(ConditionObservation { test_name, inputs, result }),
        None => None,
    }
}

// ---------------------------------------------------------------------------
// Laws
// ---------------------------------------------------------------------------

/// There is one entry per MIR function, in order and under its name.
pub proof fn one_entry_per_function(mir: MirView, coverage: CoverageView)
    ensures
        correlated(mir, coverage).functions.len() == mir.functions.len(),
        forall|i: int|
            0 <= i < mir.functions.len() ==> (#[trigger] correlated(
                mir,
                coverage,
            ).functions[i]).name == mir.functions[i].name,
{
}

/// A function without coverage has no counts.
pub proof fn unmatched_function_has_no_counts(f: FunctionView, coverage: CoverageView)
    requires
        coverage_of(coverage.functions, f.name) is None,
    ensures
        runtime_of(f, coverage).conditions == Map::<Seq<char>, ConditionRuntimeView>::empty(),
{
}

/// Every count of a function belongs to a named condition of it and to a
/// branch at the condition's span.
pub proof fn counts_belong_to_branches(f: FunctionView, coverage: CoverageView, name: Seq<char>)
    requires
        runtime_of(f, coverage).conditions.contains_key(name),
    ensures
        condition_spans(f).contains_key(name),
        ({
            let counts = runtime_of(f, coverage).conditions[name];
            &&& counts.span == condition_spans(f)[name]
            &&& coverage_of(coverage.functions, f.name) is Some
            &&& exists|i: int|
                #![trigger (coverage_of(coverage.functions, f.name)->0).branches[i]]
                {
                    let branches = (coverage_of(coverage.functions, f.name)->0).branches;
                    &&& 0 <= i < branches.len()
                    &&& branches[i].span == counts.span
                    &&& branches[i].true_count == counts.true_count
                    &&& branches[i].false_count == counts.false_count
                }
        }),
{
    let c = coverage_of(coverage.functions, f.name)->0;
    branch_is_listed(c.branches, condition_spans(f)[name]);
}

proof fn branch_is_listed(branches: Seq<BranchView>, span: SpanView)
    requires
        branch_at(branches, span) is Some,
    ensures
        (branch_at(branches, span)->0).span == span,
        exists|i: int| 0 <= i < branches.len() && #[trigger] branches[i] == branch_at(branches, span)->0,
    decreases branches.len(),
{
    if branches[0].span == span {
        assert(branches[0] == branch_at(branches, span)->0);
    } else {
        branch_is_listed(branches.skip(1), span);
        let i = choose|i: int|
            0 <= i < branches.skip(1).len() && #[trigger] branches.skip(1)[i] == branch_at(
                branches.skip(1),
                span,
            )->0;
        assert(branches[i + 1] == branch_at(branches, span)->0);
    }
}

proof fn read_spans_keep(
    spans: Map<Seq<char>, SpanView>,
    f: FunctionView,
    statements: Seq<StatementView>,
    name: Seq<char>,
)
    requires
        spans.contains_key(name),
    ensures
        with_read_spans(spans, f, statements).contains_key(name),
        with_read_spans(spans, f, statements)[name] == spans[name],
    decreases statements.len(),
{
    if statements.len() > 0 {
        let next = match statements[0] {
            StatementView::AssignCopy { src, span, .. } => with_span(spans, f, src, span),
            _ => spans,
        };
        read_spans_keep(next, f, statements.skip(1), name);
    }
}

/// The first occurrence of a condition gives its span: later ones change
/// nothing.
pub proof fn first_span_stays(
    spans: Map<Seq<char>, SpanView>,
    f: FunctionView,
    blocks: Seq<BlockView>,
    name: Seq<char>,
)
    requires
        spans.contains_key(name),
    ensures
        with_block_spans(spans, f, blocks).contains_key(name),
        with_block_spans(spans, f, blocks)[name] == spans[name],
    decreases blocks.len(),
{
    if blocks.len() > 0 {
        let tested = with_test_span(spans, f, blocks[0].terminator);
        read_spans_keep(tested, f, blocks[0].statements, name);
        first_span_stays(
            with_read_spans(tested, f, blocks[0].statements),
            f,
            blocks.skip(1),
            name,
        );
    }
}

/// A condition that was evaluated neither way is absent from what a function
/// contributes to an observation.
pub proof fn unevaluated_condition_is_absent(
    conditions: Map<Seq<char>, ConditionRuntimeView>,
    name: Seq<char>,
)
    requires
        conditions.contains_key(name),
        conditions[name].true_count == 0,
        conditions[name].false_count == 0,
    ensures
        !evaluated(conditions).contains_key(name),
{
}

/// The inputs of an observation settle the decision, and its result is the
/// value they settle it to.
pub proof fn observation_settles_decision(
    test_name: Option<Seq<char>>,
    mir: MirView,
    coverage: CoverageView,
    tree: DecisionTreeView,
)
    requires
        observation_of(test_name, mir, coverage, tree) is Some,
    ensures
        tree.decisions.len() > 0,
        ({
            let o = observation_of(test_name, mir, coverage, tree)->0;
            value_of(tree.decisions[0], o.inputs) == Some(o.result)
        }),
{
}

} // verus!
