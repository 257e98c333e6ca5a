//! What holds of every join of MIR with coverage data.
use crate::correlate::{
    branch_at, condition_spans, correlated, coverage_of, evaluated, function_demangled,
    function_named, is_hash_of, is_hex_digit, observation_of, observed_inputs,
    path_names, readable, runtime_of, symbol_names, with_block_spans, with_read_spans,
    with_test_span, without_hash, FunctionRuntimeView,
};
use crate::decision::{value_of, DecisionTreeView};
use crate::mir::{
    BlockView, FunctionView, LocalId, MirView, SpanView, StatementView, TerminatorView,
};
use crate::profile::{BranchView, CoverageView, FunctionCoverageView};
use crate::text::{
    cut_last, cut_last_at, ends_in, last_upto, last_upto_is_last, occurs_at,
};
use vstd::prelude::*;
use vstd::string::*;

verus! {

// ---------------------------------------------------------------------------
// Functions
// ---------------------------------------------------------------------------

proof fn named_is_first(functions: Seq<FunctionCoverageView>, name: Seq<char>)
    ensures
        match function_named(functions, name) {
            Some(c) => exists|i: int|
                0 <= i < functions.len() && #[trigger] functions[i] == c && c.name == name && (
                forall|j: int| 0 <= j < i ==> (#[trigger] functions[j]).name != name),
            None => forall|j: int|
                0 <= j < functions.len() ==> (#[trigger] functions[j]).name != name,
        },
    decreases functions.len(),
{
    if functions.len() > 0 {
        if functions[0].name == name {
            assert(functions[0] == functions[0]);
        } else {
            let rest = functions.skip(1);
            named_is_first(rest, name);
            if let Some(c) = function_named(rest, name) {
                let i = choose|i: int|
                    0 <= i < rest.len() && #[trigger] rest[i] == c && c.name == name && (forall|
                        j: int,
                    | 0 <= j < i ==> (#[trigger] rest[j]).name != name);
                assert(functions[i + 1] == c);
                assert forall|j: int| 0 <= j < i + 1 implies (#[trigger] functions[j]).name != name by {
                    if j > 0 {
                        assert(rest[j - 1] == functions[j]);
                    }
                }
            } else {
                assert forall|j: int| 0 <= j < functions.len() implies (#[trigger] functions[j]).name
                    != name by {
                    if j > 0 {
                        assert(rest[j - 1] == functions[j]);
                    }
                }
            }
        }
    }
}

proof fn demangled_is_first(functions: Seq<FunctionCoverageView>, name: Seq<char>)
    ensures
        match function_demangled(functions, name) {
            Some(c) => exists|i: int|
                0 <= i < functions.len() && #[trigger] functions[i] == c && symbol_names(
                    readable(c.name),
                    name,
                ) && (forall|j: int|
                    0 <= j < i ==> !symbol_names(readable((#[trigger] functions[j]).name), name)),
            None => forall|j: int|
                0 <= j < functions.len() ==> !symbol_names(
                    readable((#[trigger] functions[j]).name),
                    name,
                ),
        },
    decreases functions.len(),
{
    if functions.len() > 0 {
        if symbol_names(readable(functions[0].name), name) {
            assert(functions[0] == functions[0]);
        } else {
            let rest = functions.skip(1);
            demangled_is_first(rest, name);
            if let Some(c) = function_demangled(rest, name) {
                let i = choose|i: int|
                    0 <= i < rest.len() && #[trigger] rest[i] == c && symbol_names(
                        readable(c.name),
                        name,
                    ) && (forall|j: int|
                        0 <= j < i ==> !symbol_names(readable((#[trigger] rest[j]).name), name));
                assert(functions[i + 1] == c);
                assert forall|j: int| 0 <= j < i + 1 implies !symbol_names(
                    readable((#[trigger] functions[j]).name),
                    name,
                ) by {
                    if j > 0 {
                        assert(rest[j - 1] == functions[j]);
                    }
                }
            } else {
                assert forall|j: int| 0 <= j < functions.len() implies !symbol_names(
                    readable((#[trigger] functions[j]).name),
                    name,
                ) by {
                    if j > 0 {
                        assert(rest[j - 1] == functions[j]);
                    }
                }
            }
        }
    }
}

/// The coverage of a function is found wherever it stands in the report. It
/// is the first entry with the function's name as its symbol, or, where no
/// entry has that, the first whose readable symbol is that of the function;
/// there is none only if no entry matches either way.
pub proof fn coverage_is_found(functions: Seq<FunctionCoverageView>, name: Seq<char>)
    ensures
        match coverage_of(functions, name) {
            Some(c) => exists|i: int| {
                &&& 0 <= i < functions.len()
                &&& #[trigger] functions[i] == c
                &&& {
                    ||| functions[i].name == name && (forall|j: int|
                        0 <= j < i ==> (#[trigger] functions[j]).name != name)
                    ||| symbol_names(readable(functions[i].name), name) && (forall|j: int|
                        0 <= j < functions.len() ==> (#[trigger] functions[j]).name != name) && (
                    forall|j: int|
                        0 <= j < i ==> !symbol_names(readable((#[trigger] functions[j]).name), name))
                }
            },
            None => forall|j: int|
                0 <= j < functions.len() ==> (#[trigger] functions[j]).name != name
                    && !symbol_names(readable(functions[j].name), name),
        },
{
    named_is_first(functions, name);
    demangled_is_first(functions, name);
    if function_named(functions, name) is None {
        if let Some(c) = function_demangled(functions, name) {
            let i = choose|i: int|
                0 <= i < functions.len() && #[trigger] functions[i] == c && symbol_names(
                    readable(c.name),
                    name,
                ) && (forall|j: int|
                    0 <= j < i ==> !symbol_names(readable((#[trigger] functions[j]).name), name));
            assert(functions[i] == c);
        }
    }
}

proof fn tail_is_named(path: Seq<char>, name: Seq<char>)
    ensures
        path_names(path + "::"@ + name, name),
        path_names(name, name),
{
    let s = path + "::"@ + name;
    assert(s.skip(s.len() - ("::"@ + name).len()) =~= "::"@ + name);
}

/// Behind `::h`, hexadecimal digits hold no other `::h`.
proof fn hash_is_the_last(digits: Seq<char>)
    requires
        forall|i: int| 0 <= i < digits.len() ==> is_hex_digit(#[trigger] digits[i]),
    ensures
        forall|j: int| 0 < j ==> !#[trigger] occurs_at("::h"@ + digits, "::h"@, j),
{
    reveal_strlit("::h");
    let s = "::h"@ + digits;
    assert forall|j: int| 0 < j implies !#[trigger] occurs_at(s, "::h"@, j) by {
        if occurs_at(s, "::h"@, j) {
            assert(s.subrange(j, j + 3)[0] == s[j]);
            assert(s.subrange(j, j + 3)[1] == s[j + 1]);
            assert(s.subrange(j, j + 3)[2] == s[j + 2]);
            if j >= 3 {
                assert(is_hex_digit(digits[j - 3]));
            }
        }
    }
}

/// A function is named by its path: by itself, behind any modules, and with
/// the hash of a legacy symbol, of whatever length, at the end.
pub proof fn path_and_hash_name_a_function(path: Seq<char>, name: Seq<char>, digits: Seq<char>)
    requires
        digits.len() > 0,
        forall|i: int| 0 <= i < digits.len() ==> {
            let c = #[trigger] digits[i] as u32;
            '0' as u32 <= c <= '9' as u32 || 'a' as u32 <= c <= 'f' as u32
        },
    ensures
        symbol_names(name, name),
        symbol_names(path + "::"@ + name, name),
        symbol_names(name + "::h"@ + digits, name),
        symbol_names(path + "::"@ + name + "::h"@ + digits, name),
{
    tail_is_named(path, name);
    assert forall|i: int| 0 <= i < digits.len() implies is_hex_digit(#[trigger] digits[i]) by {}
    hash_is_the_last(digits);
    assert(is_hash_of(digits, digits.len() as int));
    cut_last_at(name, "::h"@, digits);
    cut_last_at(path + "::"@ + name, "::h"@, digits);
    assert(without_hash(name + "::h"@ + digits) == name);
    assert(without_hash(path + "::"@ + name + "::h"@ + digits) == path + "::"@ + name);
}

/// Whether `name` is the end of `path`, alone or behind `::`.
pub open spec fn is_tail_of(path: Seq<char>, name: Seq<char>) -> bool {
    path == name || exists|module: Seq<char>| path == #[trigger] (module + "::"@ + name)
}

proof fn named_is_tail(path: Seq<char>, name: Seq<char>)
    requires
        path_names(path, name),
    ensures
        is_tail_of(path, name),
{
    if path != name {
        if ends_in(path, "::"@ + name) {
            let module = path.take(path.len() - ("::"@ + name).len());
            assert(path =~= module + ("::"@ + name));
            assert(path =~= module + "::"@ + name);
        } else {
            let (module, segment) = cut_last(path, "::"@)->0;
            last_upto_is_last(path, "::"@, path.len() as int);
            let k = last_upto(path, "::"@, path.len() as int)->0;
            assert(path.subrange(k, k + "::"@.len()) == "::"@);
            assert(path =~= path.take(k) + path.subrange(k, k + "::"@.len()) + path.skip(
                k + "::"@.len(),
            ));
            assert(path == module + "::"@ + name);
        }
    }
}

/// A symbol is that of a function only if the function's name ends its path,
/// alone or behind `::`, before or without a hash.
pub proof fn symbol_of_a_function_ends_in_its_name(symbol: Seq<char>, name: Seq<char>)
    requires
        symbol_names(symbol, name),
    ensures
        is_tail_of(symbol, name) || exists|path: Seq<char>, hash: Seq<char>|
            symbol == #[trigger] (path + "::h"@ + hash) && is_tail_of(path, name),
{
    if path_names(symbol, name) {
        named_is_tail(symbol, name);
    } else {
        named_is_tail(without_hash(symbol), name);
        let (path, hash) = cut_last(symbol, "::h"@)->0;
        last_upto_is_last(symbol, "::h"@, symbol.len() as int);
        let k = last_upto(symbol, "::h"@, symbol.len() as int)->0;
        assert(symbol.subrange(k, k + "::h"@.len()) == "::h"@);
        assert(symbol =~= symbol.take(k) + symbol.subrange(k, k + "::h"@.len()) + symbol.skip(
            k + "::h"@.len(),
        ));
        assert(symbol == path + "::h"@ + hash);
    }
}

// ---------------------------------------------------------------------------
// Spans
// ---------------------------------------------------------------------------

/// The occurrence of a named local with a span.
pub open spec fn occurrence(f: FunctionView, local: LocalId, span: Option<SpanView>) -> Seq<
    (Seq<char>, SpanView),
> {
    match span {
        Some(s) => if f.debug_names.contains_key(local) {
            seq![(f.debug_names[local], s)]
        } else {
            seq![]
        },
        None => seq![],
    }
}

/// The conditions that statements read, with their spans, in order.
pub open spec fn read_occurrences(f: FunctionView, statements: Seq<StatementView>) -> Seq<
    (Seq<char>, SpanView),
>
    decreases statements.len(),
{
    if statements.len() == 0 {
        seq![]
    } else {
        (match statements[0] {
            StatementView::AssignCopy { src, span, .. } => occurrence(f, src, span),
            _ => seq![],
        }) + read_occurrences(f, statements.skip(1))
    }
}

/// The conditions of blocks with their spans, in order: of each block first
/// the one it tests, then those it reads.
pub open spec fn occurrences(f: FunctionView, blocks: Seq<BlockView>) -> Seq<(Seq<char>, SpanView)>
    decreases blocks.len(),
{
    if blocks.len() == 0 {
        seq![]
    } else {
        (match blocks[0].terminator {
            TerminatorView::SwitchInt { discr, span, .. } => occurrence(f, discr, span),
            _ => seq![],
        }) + read_occurrences(f, blocks[0].statements) + occurrences(f, blocks.skip(1))
    }
}

/// A map with the first entry of each name that it lacks.
spec fn filled(
    spans: Map<Seq<char>, SpanView>,
    list: Seq<(Seq<char>, SpanView)>,
) -> Map<Seq<char>, SpanView>
    decreases list.len(),
{
    if list.len() == 0 {
        spans
    } else {
        filled(
            if spans.contains_key(list[0].0) {
                spans
            } else {
                spans.insert(list[0].0, list[0].1)
            },
            list.skip(1),
        )
    }
}

proof fn filled_in_turn(
    spans: Map<Seq<char>, SpanView>,
    a: Seq<(Seq<char>, SpanView)>,
    b: Seq<(Seq<char>, SpanView)>,
)
    ensures
        filled(spans, a + b) == filled(filled(spans, a), b),
    decreases a.len(),
{
    if a.len() == 0 {
        assert(a + b =~= b);
    } else {
        assert((a + b).skip(1) =~= a.skip(1) + b);
        let next = if spans.contains_key(a[0].0) {
            spans
        } else {
            spans.insert(a[0].0, a[0].1)
        };
        filled_in_turn(next, a.skip(1), b);
    }
}

proof fn filled_with_one(spans: Map<Seq<char>, SpanView>, f: FunctionView, local: LocalId, span: Option<SpanView>)
    ensures
        filled(spans, occurrence(f, local, span)) == crate::correlate::with_span(
            spans,
            f,
            local,
            span,
        ),
{
    reveal_with_fuel(filled, 2);
    let list = occurrence(f, local, span);
    if list.len() > 0 {
        assert(list.skip(1) =~= seq![]);
    }
}

proof fn reads_fill(spans: Map<Seq<char>, SpanView>, f: FunctionView, statements: Seq<StatementView>)
    ensures
        with_read_spans(spans, f, statements) == filled(spans, read_occurrences(f, statements)),
    decreases statements.len(),
{
    if statements.len() > 0 {
        let here: Seq<(Seq<char>, SpanView)> = match statements[0] {
            StatementView::AssignCopy { src, span, .. } => occurrence(f, src, span),
            _ => seq![],
        };
        if let StatementView::AssignCopy { src, span, .. } = statements[0] {
            filled_with_one(spans, f, src, span);
        }
        filled_in_turn(spans, here, read_occurrences(f, statements.skip(1)));
        reads_fill(filled(spans, here), f, statements.skip(1));
    }
}

proof fn blocks_fill(spans: Map<Seq<char>, SpanView>, f: FunctionView, blocks: Seq<BlockView>)
    ensures
        with_block_spans(spans, f, blocks) == filled(spans, occurrences(f, blocks)),
    decreases blocks.len(),
{
    if blocks.len() > 0 {
        let test: Seq<(Seq<char>, SpanView)> = match blocks[0].terminator {
            TerminatorView::SwitchInt { discr, span, .. } => occurrence(f, discr, span),
            _ => seq![],
        };
        if let TerminatorView::SwitchInt { discr, span, .. } = blocks[0].terminator {
            filled_with_one(spans, f, discr, span);
        }
        let reads = read_occurrences(f, blocks[0].statements);
        let tested = with_test_span(spans, f, blocks[0].terminator);
        assert(tested == filled(spans, test));
        reads_fill(tested, f, blocks[0].statements);
        filled_in_turn(spans, test, reads);
        filled_in_turn(spans, test + reads, occurrences(f, blocks.skip(1)));
        blocks_fill(filled(spans, test + reads), f, blocks.skip(1));
    }
}

proof fn filled_has(
    spans: Map<Seq<char>, SpanView>,
    list: Seq<(Seq<char>, SpanView)>,
    name: Seq<char>,
    i: int,
)
    requires
        0 <= i <= list.len(),
        i < list.len() ==> list[i].0 == name,
        forall|j: int| 0 <= j < i ==> (#[trigger] list[j]).0 != name,
    ensures
        spans.contains_key(name) ==> filled(spans, list).contains_key(name) && filled(
            spans,
            list,
        )[name] == spans[name],
        !spans.contains_key(name) ==> (filled(spans, list).contains_key(name) <==> i < list.len()),
        !spans.contains_key(name) && i < list.len() ==> filled(spans, list)[name] == list[i].1,
    decreases list.len(),
{
    if list.len() > 0 {
        let next = if spans.contains_key(list[0].0) {
            spans
        } else {
            spans.insert(list[0].0, list[0].1)
        };
        let rest = list.skip(1);
        if i > 0 {
            assert(list[0].0 != name);
            assert forall|j: int| 0 <= j < i - 1 implies (#[trigger] rest[j]).0 != name by {
                assert(list[j + 1].0 != name);
            }
            filled_has(next, rest, name, i - 1);
        } else {
            filled_keeps(next, rest, name);
        }
    }
}

proof fn filled_keeps(
    spans: Map<Seq<char>, SpanView>,
    list: Seq<(Seq<char>, SpanView)>,
    name: Seq<char>,
)
    requires
        spans.contains_key(name),
    ensures
        filled(spans, list).contains_key(name),
        filled(spans, list)[name] == spans[name],
    decreases list.len(),
{
    if list.len() > 0 {
        let next = if spans.contains_key(list[0].0) {
            spans
        } else {
            spans.insert(list[0].0, list[0].1)
        };
        filled_keeps(next, list.skip(1), name);
    }
}

/// The span of a condition is that of its first occurrence in the function,
/// wherever that stands; a name that occurs nowhere with a span has none.
pub proof fn span_is_that_of_the_first_occurrence(f: FunctionView, name: Seq<char>, i: int)
    requires
        0 <= i <= occurrences(f, f.blocks).len(),
        i < occurrences(f, f.blocks).len() ==> occurrences(f, f.blocks)[i].0 == name,
        forall|j: int| 0 <= j < i ==> (#[trigger] occurrences(f, f.blocks)[j]).0 != name,
    ensures
        condition_spans(f).contains_key(name) <==> i < occurrences(f, f.blocks).len(),
        i < occurrences(f, f.blocks).len() ==> condition_spans(f)[name] == occurrences(
            f,
            f.blocks,
        )[i].1,
{
    blocks_fill(Map::empty(), f, f.blocks);
    filled_has(Map::empty(), occurrences(f, f.blocks), name, i);
}

// ---------------------------------------------------------------------------
// Counts
// ---------------------------------------------------------------------------

proof fn branch_is_first(branches: Seq<BranchView>, span: SpanView, i: int)
    requires
        0 <= i <= branches.len(),
        i < branches.len() ==> branches[i].span == span,
        forall|j: int| 0 <= j < i ==> (#[trigger] branches[j]).span != span,
    ensures
        branch_at(branches, span) == (if i < branches.len() {
            Some(branches[i])
        } else {
            None
        }),
    decreases i,
{
    if i > 0 {
        assert(branches[0].span != span);
        assert forall|j: int| 0 <= j < i - 1 implies (#[trigger] branches.skip(1)[j]).span != span by {
            assert(branches[j + 1].span != span);
        }
        branch_is_first(branches.skip(1), span, i - 1);
    }
}

/// A condition has the counts of the first branch at its span, wherever in
/// the function's coverage that branch stands, and none only where no branch
/// is at its span.
pub proof fn counts_are_those_of_the_first_branch(
    f: FunctionView,
    coverage: CoverageView,
    name: Seq<char>,
    i: int,
)
    requires
        coverage_of(coverage.functions, f.name) is Some,
        condition_spans(f).contains_key(name),
        ({
            let branches = (coverage_of(coverage.functions, f.name)->0).branches;
            &&& 0 <= i <= branches.len()
            &&& i < branches.len() ==> branches[i].span == condition_spans(f)[name]
            &&& forall|j: int| 0 <= j < i ==> (#[trigger] branches[j]).span != condition_spans(f)[name]
        }),
    ensures
        ({
            let branches = (coverage_of(coverage.functions, f.name)->0).branches;
            let counts = runtime_of(f, coverage).conditions;
            &&& counts.contains_key(name) <==> i < branches.len()
            &&& i < branches.len() ==> counts[name].true_count == branches[i].true_count
                && counts[name].false_count == branches[i].false_count && counts[name].span
                == branches[i].span
        }),
{
    let branches = (coverage_of(coverage.functions, f.name)->0).branches;
    branch_is_first(branches, condition_spans(f)[name], i);
}

/// Only conditions with a span have counts, and only in functions that have
/// coverage.
pub proof fn counts_need_span_and_coverage(
    f: FunctionView,
    coverage: CoverageView,
    name: Seq<char>,
)
    requires
        runtime_of(f, coverage).conditions.contains_key(name),
    ensures
        condition_spans(f).contains_key(name),
        coverage_of(coverage.functions, f.name) is Some,
{
}

// ---------------------------------------------------------------------------
// Observations
// ---------------------------------------------------------------------------

/// Whether a function saw a condition evaluated.
pub open spec fn saw(f: FunctionRuntimeView, name: Seq<char>) -> bool {
    f.conditions.contains_key(name) && (f.conditions[name].true_count > 0
        || f.conditions[name].false_count > 0)
}

proof fn inputs_are_the_last_seen(functions: Seq<FunctionRuntimeView>, name: Seq<char>, i: int)
    requires
        -1 <= i < functions.len(),
        i >= 0 ==> saw(functions[i], name),
        forall|j: int| i < j < functions.len() ==> !saw(#[trigger] functions[j], name),
    ensures
        observed_inputs(functions).contains_key(name) <==> i >= 0,
        i >= 0 ==> observed_inputs(functions)[name] == (functions[i].conditions[name].true_count > 0),
    decreases functions.len(),
{
    if functions.len() > 0 {
        let n = functions.len() - 1;
        assert(functions[n] == functions.last());
        if i < n {
            assert(!saw(functions[n], name));
            assert forall|j: int| i < j < functions.drop_last().len() implies !saw(
                #[trigger] functions.drop_last()[j],
                name,
            ) by {
                assert(functions.drop_last()[j] == functions[j]);
            }
            inputs_are_the_last_seen(functions.drop_last(), name, i);
        }
        assert(evaluated(functions.last().conditions).contains_key(name) <==> saw(
            functions.last(),
            name,
        ));
    }
}

/// An observation holds exactly the conditions that some function of the MIR
/// saw evaluated in the test. A condition is true if it was ever true; where
/// several functions have a condition of that name, the last that saw it
/// evaluated counts.
pub proof fn observation_holds_what_was_evaluated(
    test_name: Option<Seq<char>>,
    mir: MirView,
    coverage: CoverageView,
    tree: DecisionTreeView,
    name: Seq<char>,
    i: int,
)
    requires
        observation_of(test_name, mir, coverage, tree) is Some,
        -1 <= i < mir.functions.len(),
        i >= 0 ==> saw(runtime_of(mir.functions[i], coverage), name),
        forall|j: int|
            i < j < mir.functions.len() ==> !saw(
                runtime_of(#[trigger] mir.functions[j], coverage),
                name,
            ),
    ensures
        ({
            let o = observation_of(test_name, mir, coverage, tree)->0;
            &&& o.test_name == test_name
            &&& o.inputs.contains_key(name) <==> i >= 0
            &&& i >= 0 ==> o.inputs[name] == (runtime_of(
                mir.functions[i],
                coverage,
            ).conditions[name].true_count > 0)
        }),
{
    let functions = correlated(mir, coverage).functions;
    assert forall|j: int| i < j < functions.len() implies !saw(#[trigger] functions[j], name) by {
        assert(functions[j] == runtime_of(mir.functions[j], coverage));
    }
    inputs_are_the_last_seen(functions, name, i);
}

/// A test gives an observation as soon as what was evaluated settles the
/// first decision: any assignment that holds exactly the conditions that some
/// function saw evaluated, with the value that the last of them saw.
pub proof fn settled_decision_gives_an_observation(
    test_name: Option<Seq<char>>,
    mir: MirView,
    coverage: CoverageView,
    tree: DecisionTreeView,
    inputs: Map<Seq<char>, bool>,
)
    requires
        tree.decisions.len() > 0,
        value_of(tree.decisions[0], inputs) is Some,
        forall|name: Seq<char>| #[trigger]
            inputs.contains_key(name) ==> exists|i: int|
                0 <= i < mir.functions.len() && saw(
                    runtime_of(#[trigger] mir.functions[i], coverage),
                    name,
                ) && inputs[name] == (runtime_of(
                    mir.functions[i],
                    coverage,
                ).conditions[name].true_count > 0) && (forall|j: int|
                    i < j < mir.functions.len() ==> !saw(
                        runtime_of(#[trigger] mir.functions[j], coverage),
                        name,
                    )),
        forall|name: Seq<char>, i: int|
            0 <= i < mir.functions.len() && #[trigger] saw(
                runtime_of(mir.functions[i], coverage),
                name,
            ) ==> inputs.contains_key(name),
    ensures
        observation_of(test_name, mir, coverage, tree) matches Some(o) && o.inputs == inputs
            && o.result == value_of(tree.decisions[0], inputs)->0 && o.test_name == test_name,
{
    let functions = correlated(mir, coverage).functions;
    let seen = observed_inputs(functions);
    assert forall|name: Seq<char>|
        #![trigger seen.dom().contains(name)]
        #![trigger inputs.dom().contains(name)]
        #![trigger seen[name]]
        seen.dom().contains(name) == inputs.dom().contains(name) && (seen.dom().contains(name)
            ==> seen[name] == inputs[name]) by {
        if inputs.contains_key(name) {
            let i = choose|i: int|
                0 <= i < mir.functions.len() && saw(
                    runtime_of(#[trigger] mir.functions[i], coverage),
                    name,
                ) && inputs[name] == (runtime_of(
                    mir.functions[i],
                    coverage,
                ).conditions[name].true_count > 0) && (forall|j: int|
                    i < j < mir.functions.len() ==> !saw(
                        runtime_of(#[trigger] mir.functions[j], coverage),
                        name,
                    ));
            assert forall|j: int| i < j < functions.len() implies !saw(#[trigger] functions[j], name) by {
                assert(functions[j] == runtime_of(mir.functions[j], coverage));
            }
            inputs_are_the_last_seen(functions, name, i);
        } else {
            assert forall|j: int| -1 < j < functions.len() implies !saw(
                #[trigger] functions[j],
                name,
            ) by {
                assert(functions[j] == runtime_of(mir.functions[j], coverage));
            }
            inputs_are_the_last_seen(functions, name, -1);
        }
    }
    assert(seen =~= inputs);
}

/// A test without a decision, or one whose evaluated conditions do not settle
/// it, gives no observation.
pub proof fn observation_needs_a_settled_decision(
    test_name: Option<Seq<char>>,
    mir: MirView,
    coverage: CoverageView,
    tree: DecisionTreeView,
)
    ensures
        tree.decisions.len() == 0 ==> observation_of(test_name, mir, coverage, tree) is None,
        observation_of(test_name, mir, coverage, tree) matches Some(o) ==> value_of(
            tree.decisions[0],
            o.inputs,
        ) == Some(o.result),
{
}

} // verus!
