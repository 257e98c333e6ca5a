//! How the names of captured variables reach the locals that read them.
use crate::mir::names::{
    after_all_copies, after_all_reads, after_copies, after_copy, after_read, after_reads,
    capture_name, with_capture_names, Naming,
};
use crate::mir::{BlockView, CaptureView, FunctionView, LocalId, StatementView};
use vstd::prelude::*;

verus! {

/// All statements of blocks, in order.
pub open spec fn statements_of(blocks: Seq<BlockView>) -> Seq<StatementView> {
    blocks.map_values(|b: BlockView| b.statements).flatten()
}

proof fn statements_unfold(blocks: Seq<BlockView>)
    requires
        blocks.len() > 0,
    ensures
        statements_of(blocks) == blocks[0].statements + statements_of(blocks.skip(1)),
{
    let lists = blocks.map_values(|b: BlockView| b.statements);
    assert(lists.drop_first() =~= blocks.skip(1).map_values(|b: BlockView| b.statements));
    assert(lists.first() == blocks[0].statements);
}

proof fn reads_in_turn(
    n: Naming,
    captures: Seq<CaptureView>,
    s: Seq<StatementView>,
    t: Seq<StatementView>,
)
    ensures
        after_reads(n, captures, s + t) == after_reads(after_reads(n, captures, s), captures, t),
    decreases s.len(),
{
    if s.len() == 0 {
        assert(s + t =~= t);
    } else {
        assert((s + t).skip(1) =~= s.skip(1) + t);
        assert((s + t)[0] == s[0]);
        reads_in_turn(after_read(n, captures, s[0]), captures, s.skip(1), t);
    }
}

proof fn copies_in_turn(
    names: Map<LocalId, Seq<char>>,
    aliases: Map<LocalId, Seq<char>>,
    s: Seq<StatementView>,
    t: Seq<StatementView>,
)
    ensures
        after_copies(names, aliases, s + t) == after_copies(
            after_copies(names, aliases, s),
            aliases,
            t,
        ),
    decreases s.len(),
{
    if s.len() == 0 {
        assert(s + t =~= t);
    } else {
        assert((s + t).skip(1) =~= s.skip(1) + t);
        assert((s + t)[0] == s[0]);
        copies_in_turn(after_copy(names, aliases, s[0]), aliases, s.skip(1), t);
    }
}

proof fn reads_of_blocks(n: Naming, captures: Seq<CaptureView>, blocks: Seq<BlockView>)
    ensures
        after_all_reads(n, captures, blocks) == after_reads(n, captures, statements_of(blocks)),
    decreases blocks.len(),
{
    if blocks.len() > 0 {
        statements_unfold(blocks);
        reads_in_turn(n, captures, blocks[0].statements, statements_of(blocks.skip(1)));
        reads_of_blocks(after_reads(n, captures, blocks[0].statements), captures, blocks.skip(1));
    } else {
        assert(blocks.map_values(|b: BlockView| b.statements) =~= seq![]);
    }
}

proof fn copies_of_blocks(
    names: Map<LocalId, Seq<char>>,
    aliases: Map<LocalId, Seq<char>>,
    blocks: Seq<BlockView>,
)
    ensures
        after_all_copies(names, aliases, blocks) == after_copies(
            names,
            aliases,
            statements_of(blocks),
        ),
    decreases blocks.len(),
{
    if blocks.len() > 0 {
        statements_unfold(blocks);
        copies_in_turn(names, aliases, blocks[0].statements, statements_of(blocks.skip(1)));
        copies_of_blocks(
            after_copies(names, aliases, blocks[0].statements),
            aliases,
            blocks.skip(1),
        );
    } else {
        assert(blocks.map_values(|b: BlockView| b.statements) =~= seq![]);
    }
}

/// A field of an environment has the name of the last capture that is
/// declared for it, and none only if none is declared.
pub proof fn field_has_the_last_name(
    captures: Seq<CaptureView>,
    env: LocalId,
    field: u32,
    i: int,
)
    requires
        -1 <= i < captures.len(),
        i >= 0 ==> captures[i].env_local == env && captures[i].field == field,
        forall|j: int|
            i < j < captures.len() ==> !((#[trigger] captures[j]).env_local == env
                && captures[j].field == field),
    ensures
        capture_name(captures, env, field) == (if i >= 0 {
            Some(captures[i].name)
        } else {
            None
        }),
    decreases captures.len(),
{
    if captures.len() > 0 {
        let n = captures.len() - 1;
        assert(captures[n] == captures.last());
        if i < n {
            assert(!(captures[n].env_local == env && captures[n].field == field));
            assert forall|j: int| i < j < captures.drop_last().len() implies !((
            #[trigger] captures.drop_last()[j]).env_local == env && captures.drop_last()[j].field
                == field) by {
                assert(captures.drop_last()[j] == captures[j]);
            }
            field_has_the_last_name(captures.drop_last(), env, field, i);
        }
    }
}

/// The name of the capture that a statement reads into a local.
pub open spec fn name_read(
    captures: Seq<CaptureView>,
    s: StatementView,
    local: LocalId,
) -> Option<Seq<char>> {
    match s {
        StatementView::AssignCaptureRead { dst, env, field, .. } => if dst == local {
            capture_name(captures, env, field)
        } else {
            None
        },
        _ => None,
    }
}

/// The name of the capture whose reference a statement reads into a local.
pub open spec fn reference_read(
    captures: Seq<CaptureView>,
    s: StatementView,
    local: LocalId,
) -> Option<Seq<char>> {
    match s {
        StatementView::AssignCaptureRead { holds_ref, .. } => if holds_ref {
            name_read(captures, s, local)
        } else {
            None
        },
        _ => None,
    }
}

proof fn first_read_names(
    n: Naming,
    captures: Seq<CaptureView>,
    statements: Seq<StatementView>,
    local: LocalId,
    i: int,
)
    requires
        0 <= i <= statements.len(),
        i < statements.len() ==> name_read(captures, statements[i], local) is Some,
        forall|j: int| 0 <= j < i ==> name_read(captures, #[trigger] statements[j], local) is None,
    ensures
        after_reads(n, captures, statements).names.get(local) == (if n.names.contains_key(local) {
            Some(n.names[local])
        } else if i < statements.len() {
            name_read(captures, statements[i], local)
        } else {
            None
        }),
    decreases statements.len(),
{
    if statements.len() > 0 {
        let next = after_read(n, captures, statements[0]);
        let rest = statements.skip(1);
        if i > 0 {
            assert(name_read(captures, statements[0], local) is None);
            assert forall|j: int| 0 <= j < i - 1 implies name_read(
                captures,
                #[trigger] rest[j],
                local,
            ) is None by {
                assert(name_read(captures, statements[j + 1], local) is None);
            }
            first_read_names(next, captures, rest, local, i - 1);
        } else {
            assert(next.names.contains_key(local));
            named_stays(next, captures, rest, local);
        }
    }
}

proof fn named_stays(
    n: Naming,
    captures: Seq<CaptureView>,
    statements: Seq<StatementView>,
    local: LocalId,
)
    requires
        n.names.contains_key(local),
    ensures
        after_reads(n, captures, statements).names.get(local) == Some(n.names[local]),
    decreases statements.len(),
{
    if statements.len() > 0 {
        named_stays(after_read(n, captures, statements[0]), captures, statements.skip(1), local);
    }
}

proof fn last_reference_counts(
    n: Naming,
    captures: Seq<CaptureView>,
    statements: Seq<StatementView>,
    local: LocalId,
    i: int,
)
    requires
        -1 <= i < statements.len(),
        i >= 0 ==> reference_read(captures, statements[i], local) is Some,
        forall|j: int|
            i < j < statements.len() ==> reference_read(
                captures,
                #[trigger] statements[j],
                local,
            ) is None,
    ensures
        after_reads(n, captures, statements).aliases.get(local) == (if i >= 0 {
            reference_read(captures, statements[i], local)
        } else {
            n.aliases.get(local)
        }),
    decreases statements.len(),
{
    if statements.len() > 0 {
        let next = after_read(n, captures, statements[0]);
        let rest = statements.skip(1);
        assert forall|j: int| i - 1 < j < rest.len() && j >= 0 implies reference_read(
            captures,
            #[trigger] rest[j],
            local,
        ) is None by {
            assert(reference_read(captures, statements[j + 1], local) is None);
        }
        if i > 0 {
            assert(rest[i - 1] == statements[i]);
            last_reference_counts(next, captures, rest, local, i - 1);
        } else {
            last_reference_counts(next, captures, rest, local, -1);
            if i < 0 {
                assert(reference_read(captures, statements[0], local) is None);
            }
        }
    }
}

/// Whether a statement copies an alias into a local.
pub open spec fn copies_alias(
    aliases: Map<LocalId, Seq<char>>,
    s: StatementView,
    local: LocalId,
) -> bool {
    s matches StatementView::AssignCopy { dst, src, .. } && dst == local && aliases.contains_key(src)
}

proof fn last_copy_counts(
    names: Map<LocalId, Seq<char>>,
    aliases: Map<LocalId, Seq<char>>,
    statements: Seq<StatementView>,
    local: LocalId,
    i: int,
)
    requires
        -1 <= i < statements.len(),
        i >= 0 ==> copies_alias(aliases, statements[i], local),
        forall|j: int|
            i < j < statements.len() ==> !copies_alias(aliases, #[trigger] statements[j], local),
    ensures
        after_copies(names, aliases, statements).get(local) == (if i >= 0 {
            Some(aliases[statements[i]->AssignCopy_src])
        } else {
            names.get(local)
        }),
    decreases statements.len(),
{
    if statements.len() > 0 {
        let next = after_copy(names, aliases, statements[0]);
        let rest = statements.skip(1);
        assert forall|j: int| i - 1 < j < rest.len() && j >= 0 implies !copies_alias(
            aliases,
            #[trigger] rest[j],
            local,
        ) by {
            assert(!copies_alias(aliases, statements[j + 1], local));
        }
        if i > 0 {
            assert(rest[i - 1] == statements[i]);
            last_copy_counts(next, aliases, rest, local, i - 1);
        } else {
            last_copy_counts(next, aliases, rest, local, -1);
            if i < 0 {
                assert(!copies_alias(aliases, statements[0], local));
            }
        }
    }
}

/// The local that holds a reference to a capture: it is read somewhere in the
/// function, and the last such read gives the name.
pub open spec fn refers_to(f: FunctionView, local: LocalId, name: Seq<char>) -> bool {
    exists|i: int| {
        &&& 0 <= i < statements_of(f.blocks).len()
        &&& reference_read(f.captures, #[trigger] statements_of(f.blocks)[i], local) == Some(name)
        &&& forall|j: int|
            i < j < statements_of(f.blocks).len() ==> reference_read(
                f.captures,
                #[trigger] statements_of(f.blocks)[j],
                local,
            ) is None
    }
}

proof fn aliases_are_references(f: FunctionView, local: LocalId)
    ensures
        ({
            let n = after_reads(
                Naming { names: f.debug_names, aliases: Map::empty() },
                f.captures,
                statements_of(f.blocks),
            );
            &&& n.aliases.contains_key(local) ==> refers_to(f, local, n.aliases[local])
            &&& forall|name: Seq<char>| #[trigger]
                refers_to(f, local, name) ==> n.aliases.contains_key(local) && n.aliases[local]
                    == name
        }),
{
    let s = statements_of(f.blocks);
    let n = Naming { names: f.debug_names, aliases: Map::empty() };
    let i = last_reference(f.captures, s, local);
    last_reference_counts(n, f.captures, s, local, i);
    assert forall|name: Seq<char>| #[trigger] refers_to(f, local, name) implies i >= 0
        && reference_read(f.captures, s[i], local) == Some(name) by {
        let k = choose|k: int| {
            &&& 0 <= k < s.len()
            &&& reference_read(f.captures, #[trigger] s[k], local) == Some(name)
            &&& forall|j: int|
                k < j < s.len() ==> reference_read(f.captures, #[trigger] s[j], local) is None
        };
        if i < k {
            assert(reference_read(f.captures, s[k], local) is None);
        }
        if k < i {
            assert(reference_read(f.captures, s[i], local) is None);
        }
    }
    if i >= 0 {
        assert(reference_read(f.captures, s[i], local) is Some);
    }
}

/// The last statement that reads a reference into a local, or -1.
proof fn last_reference(
    captures: Seq<CaptureView>,
    statements: Seq<StatementView>,
    local: LocalId,
) -> (i: int)
    ensures
        -1 <= i < statements.len(),
        i >= 0 ==> reference_read(captures, statements[i], local) is Some,
        forall|j: int|
            i < j < statements.len() ==> reference_read(
                captures,
                #[trigger] statements[j],
                local,
            ) is None,
    decreases statements.len(),
{
    if statements.len() == 0 {
        -1
    } else if reference_read(captures, statements.last(), local) is Some {
        statements.len() - 1
    } else {
        let i = last_reference(captures, statements.drop_last(), local);
        assert forall|j: int| i < j < statements.len() implies reference_read(
            captures,
            #[trigger] statements[j],
            local,
        ) is None by {
            if j < statements.len() - 1 {
                assert(statements.drop_last()[j] == statements[j]);
            } else {
                assert(statements[j] == statements.last());
            }
        }
        i
    }
}

/// A local that is copied through a reference to a captured variable has the
/// variable's name, wherever in the function the reference is read and
/// copied; of several such copies the last counts.
pub proof fn copy_through_a_reference_has_the_name(
    f: FunctionView,
    local: LocalId,
    i: int,
    name: Seq<char>,
)
    requires
        f.captures.len() > 0,
        0 <= i < statements_of(f.blocks).len(),
        statements_of(f.blocks)[i] matches StatementView::AssignCopy { dst, src, .. } && dst
            == local && refers_to(f, src, name),
        forall|j: int|
            i < j < statements_of(f.blocks).len() ==> !((
            #[trigger] statements_of(f.blocks)[j]) is AssignCopy
                && statements_of(f.blocks)[j]->AssignCopy_dst == local),
    ensures
        with_capture_names(f).debug_names.contains_key(local),
        with_capture_names(f).debug_names[local] == name,
{
    let s = statements_of(f.blocks);
    let start = Naming { names: f.debug_names, aliases: Map::empty() };
    let n = after_reads(start, f.captures, s);
    reads_of_blocks(start, f.captures, f.blocks);
    copies_of_blocks(n.names, n.aliases, f.blocks);
    let src = s[i]->AssignCopy_src;
    aliases_are_references(f, src);
    assert forall|j: int| i < j < s.len() implies !copies_alias(
        n.aliases,
        #[trigger] s[j],
        local,
    ) by {}
    last_copy_counts(n.names, n.aliases, s, local, i);
}

/// A local that no copy reaches keeps its declared name; one without gets
/// that of the first captured variable that is read into it, wherever in the
/// function that is, and no name only if none is.
pub proof fn read_of_a_capture_has_the_name(f: FunctionView, local: LocalId, i: int)
    requires
        f.captures.len() > 0,
        0 <= i <= statements_of(f.blocks).len(),
        i < statements_of(f.blocks).len() ==> name_read(
            f.captures,
            statements_of(f.blocks)[i],
            local,
        ) is Some,
        forall|j: int|
            0 <= j < i ==> name_read(
                f.captures,
                #[trigger] statements_of(f.blocks)[j],
                local,
            ) is None,
        forall|j: int|
            0 <= j < statements_of(f.blocks).len() ==> !((
            #[trigger] statements_of(f.blocks)[j]) is AssignCopy
                && statements_of(f.blocks)[j]->AssignCopy_dst == local),
    ensures
        with_capture_names(f).debug_names.get(local) == (if f.debug_names.contains_key(local) {
            Some(f.debug_names[local])
        } else if i < statements_of(f.blocks).len() {
            name_read(f.captures, statements_of(f.blocks)[i], local)
        } else {
            None
        }),
{
    let s = statements_of(f.blocks);
    let start = Naming { names: f.debug_names, aliases: Map::empty() };
    let n = after_reads(start, f.captures, s);
    reads_of_blocks(start, f.captures, f.blocks);
    copies_of_blocks(n.names, n.aliases, f.blocks);
    first_read_names(start, f.captures, s, local, i);
    assert forall|j: int| -1 < j < s.len() implies !copies_alias(n.aliases, #[trigger] s[j], local) by {}
    last_copy_counts(n.names, n.aliases, s, local, -1);
}

/// A copy of a local that refers to no captured variable names nothing: a
/// local that only such copies reach keeps what it has.
pub proof fn other_copies_name_nothing(f: FunctionView, local: LocalId)
    requires
        f.captures.len() > 0,
        f.debug_names.contains_key(local),
        forall|j: int, name: Seq<char>|
            0 <= j < statements_of(f.blocks).len() && (
            #[trigger] statements_of(f.blocks)[j]) is AssignCopy
                && statements_of(f.blocks)[j]->AssignCopy_dst == local ==> !#[trigger] refers_to(
                f,
                statements_of(f.blocks)[j]->AssignCopy_src,
                name,
            ),
    ensures
        with_capture_names(f).debug_names.get(local) == Some(f.debug_names[local]),
{
    let s = statements_of(f.blocks);
    let start = Naming { names: f.debug_names, aliases: Map::empty() };
    let n = after_reads(start, f.captures, s);
    reads_of_blocks(start, f.captures, f.blocks);
    copies_of_blocks(n.names, n.aliases, f.blocks);
    named_stays(start, f.captures, s, local);
    assert forall|j: int| -1 < j < s.len() implies !copies_alias(n.aliases, #[trigger] s[j], local) by {
        if copies_alias(n.aliases, s[j], local) {
            let src = s[j]->AssignCopy_src;
            aliases_are_references(f, src);
            assert(refers_to(f, src, n.aliases[src]));
        }
    }
    last_copy_counts(n.names, n.aliases, s, local, -1);
}

/// Nothing but names is added: a function without captures stays as it is,
/// and of any other only the names change.
pub proof fn only_names_change(f: FunctionView)
    ensures
        f.captures.len() == 0 ==> with_capture_names(f) == f,
        with_capture_names(f) == (FunctionView {
            debug_names: with_capture_names(f).debug_names,
            ..f
        }),
{
}

} // verus!
