//! Names of locals that read closure captures.
//!
//! A closure body reads its captures through its environment. The pass here
//! gives each local that reads a capture the captured variable's name, so
//! that decisions over captures can be named after them.
use crate::mir::{
    name_map, BlockView, CaptureView, FunctionView, LocalId, MirCapture, MirFunction,
    MirStatement, StatementView,
};
use std::collections::BTreeMap;
use vstd::prelude::*;

verus! {

broadcast use vstd::std_specs::btree::group_btree_axioms;

/// The name of the last capture declared for a field of an environment.
pub open spec fn capture_name(captures: Seq<CaptureView>, env: LocalId, field: u32) -> Option<
    Seq<char>,
>
    decreases captures.len(),
{
    if captures.len() == 0 {
        None
    } else if captures.last().env_local == env && captures.last().field == field {
        Some(captures.last().name)
    } else {
        capture_name(captures.drop_last(), env, field)
    }
}

/// Names of locals, and the locals that hold a reference to a capture.
pub struct Naming {
    pub names: Map<LocalId, Seq<char>>,
    pub aliases: Map<LocalId, Seq<char>>,
}

/// What a capture read adds: its destination is named after the capture,
/// unless it has a name, and is an alias where it holds a reference.
pub open spec fn after_read(n: Naming, captures: Seq<CaptureView>, s: StatementView) -> Naming {
    match s {
        StatementView::AssignCaptureRead { dst, env, field, holds_ref, .. } => match capture_name(
            captures,
            env,
            field,
        ) {
            Some(name) => Naming {
                names: if n.names.contains_key(dst) {
                    n.names
                } else {
                    n.names.insert(dst, name)
                },
                aliases: if holds_ref {
                    n.aliases.insert(dst, name)
                } else {
                    n.aliases
                },
            },
            None => n,
        },
        _ => n,
    }
}

/// What the capture reads of a block add, one after the other.
pub open spec fn after_reads(
    n: Naming,
    captures: Seq<CaptureView>,
    statements: Seq<StatementView>,
) -> Naming
    decreases statements.len(),
{
    if statements.len() == 0 {
        n
    } else {
        after_reads(after_read(n, captures, statements[0]), captures, statements.skip(1))
    }
}

/// What the capture reads of all blocks add.
pub open spec fn after_all_reads(
    n: Naming,
    captures: Seq<CaptureView>,
    blocks: Seq<BlockView>,
) -> Naming
    decreases blocks.len(),
{
    if blocks.len() == 0 {
        n
    } else {
        after_all_reads(
            after_reads(n, captures, blocks[0].statements),
            captures,
            blocks.skip(1),
        )
    }
}

/// The names after a copy: what is copied from an alias takes its name.
pub open spec fn after_copy(
    names: Map<LocalId, Seq<char>>,
    aliases: Map<LocalId, Seq<char>>,
    s: StatementView,
) -> Map<LocalId, Seq<char>> {
    match s {
        StatementView::AssignCopy { dst, src, .. } => if aliases.contains_key(src) {
            names.insert(dst, aliases[src])
        } else {
            names
        },
        _ => names,
    }
}

/// The names after the copies of a block.
pub open spec fn after_copies(
    names: Map<LocalId, Seq<char>>,
    aliases: Map<LocalId, Seq<char>>,
    statements: Seq<StatementView>,
) -> Map<LocalId, Seq<char>>
    decreases statements.len(),
{
    if statements.len() == 0 {
        names
    } else {
        after_copies(after_copy(names, aliases, statements[0]), aliases, statements.skip(1))
    }
}

/// The names after the copies of all blocks.
pub open spec fn after_all_copies(
    names: Map<LocalId, Seq<char>>,
    aliases: Map<LocalId, Seq<char>>,
    blocks: Seq<BlockView>,
) -> Map<LocalId, Seq<char>>
    decreases blocks.len(),
{
    if blocks.len() == 0 {
        names
    } else {
        after_all_copies(
            after_copies(names, aliases, blocks[0].statements),
            aliases,
            blocks.skip(1),
        )
    }
}

/// The function with the names of its captures spread to the locals that
/// read them.
pub open spec fn with_capture_names(f: FunctionView) -> FunctionView {
    if f.captures.len() == 0 {
        f
    } else {
        let n = after_all_reads(
            Naming { names: f.debug_names, aliases: Map::empty() },
            f.captures,
            f.blocks,
        );
        FunctionView { debug_names: after_all_copies(n.names, n.aliases, f.blocks), ..f }
    }
}

// ---------------------------------------------------------------------------
// The pass
// ---------------------------------------------------------------------------

/// Binds `local` to `name`.
pub fn set_name(m: &mut BTreeMap<LocalId, String>, local: LocalId, name: String)
    ensures
        name_map(final(m)@) == name_map(old(m)@).insert(local, name@),
{
    m.insert(local, name);
    assert(name_map(m@) =~= name_map(old(m)@).insert(local, name@));
}

/// Binds `local` to `name` unless it has a name.
pub fn set_name_once(m: &mut BTreeMap<LocalId, String>, local: LocalId, name: String)
    ensures
        name_map(final(m)@) == if name_map(old(m)@).contains_key(local) {
            name_map(old(m)@)
        } else {
            name_map(old(m)@).insert(local, name@)
        },
{
    if !m.contains_key(&local) {
        set_name(m, local, name);
    }
}

/// The name of `local`.
pub fn name_of(m: &BTreeMap<LocalId, String>, local: LocalId) -> (r: Option<String>)
    ensures
        match r {
            Some(name) => name_map(m@).contains_key(local) && name_map(m@)[local] == name@,
            None => !name_map(m@).contains_key(local),
        },
{
    match m.get(&local) {
        Some(name) => Some(name.clone()),
        None => None,
    }
}

/// The name of the last capture declared for a field of an environment.
fn find_capture_name(captures: &Vec<MirCapture>, env: LocalId, field: u32) -> (r: Option<String>)
    ensures
        match r {
            Some(name) => capture_name(captures.deep_view(), env, field) == Some(name@),
            None => capture_name(captures.deep_view(), env, field) is None,
        },
{
    let ghost all = captures.deep_view();
    let mut n: usize = captures.len();
    assert(all.take(n as int) =~= all);
    while n > 0
        invariant
            n <= captures@.len(),
            all == captures.deep_view(),
            capture_name(all, env, field) == capture_name(all.take(n as int), env, field),
        decreases n,
    {
        n -= 1;
        assert(all.take(n + 1).drop_last() =~= all.take(n as int));
        assert(all.take(n + 1).last() == captures@[n as int].deep_view());
        if captures[n].env_local == env && captures[n].field == field {
            return Some(captures[n].name.clone());
        }
    }
    None
}

/// Adds what the capture reads of one block add.
fn bind_reads(
    names: &mut BTreeMap<LocalId, String>,
    aliases: &mut BTreeMap<LocalId, String>,
    captures: &Vec<MirCapture>,
    statements: &Vec<MirStatement>,
)
    ensures
        (Naming { names: name_map(final(names)@), aliases: name_map(final(aliases)@) })
            == after_reads(
            Naming { names: name_map(old(names)@), aliases: name_map(old(aliases)@) },
            captures.deep_view(),
            statements.deep_view(),
        ),
{
    let ghost all = statements.deep_view();
    let ghost start = Naming { names: name_map(names@), aliases: name_map(aliases@) };
    let mut i: usize = 0;
    assert(all.skip(0) =~= all);
    while i < statements.len()
        invariant
            i <= statements@.len(),
            all == statements.deep_view(),
            after_reads(start, captures.deep_view(), all) == after_reads(
                Naming { names: name_map(names@), aliases: name_map(aliases@) },
                captures.deep_view(),
                all.skip(i as int),
            ),
        decreases statements@.len() - i,
    {
        assert(all.skip(i as int)[0] == statements@[i as int].deep_view());
        assert(all.skip(i as int).skip(1) =~= all.skip(i + 1));
        if let MirStatement::AssignCaptureRead { dst, env, field, holds_ref, .. } = &statements[i] {
            if let Some(name) = find_capture_name(captures, *env, *field) {
                if *holds_ref {
                    set_name(aliases, *dst, name.clone());
                }
                set_name_once(names, *dst, name);
            }
        }
        i += 1;
    }
    assert(all.skip(i as int) =~= seq![]);
}

/// Names what one block copies from an alias.
fn name_copies(
    names: &mut BTreeMap<LocalId, String>,
    aliases: &BTreeMap<LocalId, String>,
    statements: &Vec<MirStatement>,
)
    ensures
        name_map(final(names)@) == after_copies(
            name_map(old(names)@),
            name_map(aliases@),
            statements.deep_view(),
        ),
{
    let ghost all = statements.deep_view();
    let ghost start = name_map(names@);
    let mut i: usize = 0;
    assert(all.skip(0) =~= all);
    while i < statements.len()
        invariant
            i <= statements@.len(),
            all == statements.deep_view(),
            after_copies(start, name_map(aliases@), all) == after_copies(
                name_map(names@),
                name_map(aliases@),
                all.skip(i as int),
            ),
        decreases statements@.len() - i,
    {
        assert(all.skip(i as int)[0] == statements@[i as int].deep_view());
        assert(all.skip(i as int).skip(1) =~= all.skip(i + 1));
        if let MirStatement::AssignCopy { dst, src, .. } = &statements[i] {
            if let Some(name) = name_of(aliases, *src) {
                set_name(names, *dst, name);
            }
        }
        i += 1;
    }
    assert(all.skip(i as int) =~= seq![]);
}

/// Spreads the names of a function's captures to the locals that read them:
/// first to the destinations of capture reads, then to what is copied
/// through a reference to a capture.
pub fn propagate_capture_names(f: &mut MirFunction)
    ensures
        final(f).deep_view() == with_capture_names(old(f).deep_view()),
{
    if f.captures.len() == 0 {
        return;
    }
    let ghost before = f.deep_view();
    let ghost start = Naming { names: before.debug_names, aliases: Map::empty() };
    let mut names: BTreeMap<LocalId, String> = f.debug_names.clone();
    let mut aliases: BTreeMap<LocalId, String> = BTreeMap::new();
    assert(name_map(aliases@) =~= Map::empty());
    assert(before.blocks.skip(0) =~= before.blocks);
    let mut i: usize = 0;
    while i < f.blocks.len()
        invariant
            i <= f.blocks@.len(),
            f.deep_view() == before,
            start == (Naming { names: before.debug_names, aliases: Map::empty() }),
            after_all_reads(start, before.captures, before.blocks) == after_all_reads(
                Naming { names: name_map(names@), aliases: name_map(aliases@) },
                before.captures,
                before.blocks.skip(i as int),
            ),
        decreases f.blocks@.len() - i,
    {
        assert(before.blocks.skip(i as int)[0] == f.blocks@[i as int].deep_view());
        assert(before.blocks.skip(i as int).skip(1) =~= before.blocks.skip(i + 1));
        bind_reads(&mut names, &mut aliases, &f.captures, &f.blocks[i].statements);
        i += 1;
    }
    assert(before.blocks.skip(i as int) =~= seq![]);
    let ghost n = after_all_reads(start, before.captures, before.blocks);
    let mut k: usize = 0;
    while k < f.blocks.len()
        invariant
            k <= f.blocks@.len(),
            f.deep_view() == before,
            name_map(aliases@) == n.aliases,
            after_all_copies(n.names, n.aliases, before.blocks) == after_all_copies(
                name_map(names@),
                n.aliases,
                before.blocks.skip(k as int),
            ),
        decreases f.blocks@.len() - k,
    {
        assert(before.blocks.skip(k as int)[0] == f.blocks@[k as int].deep_view());
        assert(before.blocks.skip(k as int).skip(1) =~= before.blocks.skip(k + 1));
        name_copies(&mut names, &aliases, &f.blocks[k].statements);
        k += 1;
    }
    assert(before.blocks.skip(k as int) =~= seq![]);
    f.debug_names = names;
}

// ---------------------------------------------------------------------------
// Laws
// ---------------------------------------------------------------------------

/// What copies add does not depend on the names before them.
proof fn copies_override(
    names: Map<LocalId, Seq<char>>,
    aliases: Map<LocalId, Seq<char>>,
    statements: Seq<StatementView>,
)
    ensures
        after_copies(names, aliases, statements) == names.union_prefer_right(
            after_copies(Map::empty(), aliases, statements),
        ),
    decreases statements.len(),
{
    if statements.len() == 0 {
        assert(names.union_prefer_right(Map::empty()) =~= names);
    } else {
        let none = Map::<LocalId, Seq<char>>::empty();
        let rest = statements.skip(1);
        let added = after_copies(none, aliases, rest);
        copies_override(after_copy(names, aliases, statements[0]), aliases, rest);
        copies_override(after_copy(none, aliases, statements[0]), aliases, rest);
        assert(after_copy(names, aliases, statements[0]).union_prefer_right(added)
            =~= names.union_prefer_right(
            after_copy(none, aliases, statements[0]).union_prefer_right(added),
        ));
    }
}

/// What the copies of all blocks add does not depend on the names before
/// them.
proof fn all_copies_override(
    names: Map<LocalId, Seq<char>>,
    aliases: Map<LocalId, Seq<char>>,
    blocks: Seq<BlockView>,
)
    ensures
        after_all_copies(names, aliases, blocks) == names.union_prefer_right(
            after_all_copies(Map::empty(), aliases, blocks),
        ),
    decreases blocks.len(),
{
    if blocks.len() == 0 {
        assert(names.union_prefer_right(Map::empty()) =~= names);
    } else {
        let none = Map::<LocalId, Seq<char>>::empty();
        let first = blocks[0].statements;
        let rest = blocks.skip(1);
        let added = after_all_copies(none, aliases, rest);
        copies_override(names, aliases, first);
        all_copies_override(after_copies(names, aliases, first), aliases, rest);
        all_copies_override(after_copies(none, aliases, first), aliases, rest);
        assert(names.union_prefer_right(
            after_copies(none, aliases, first),
        ).union_prefer_right(added) =~= names.union_prefer_right(
            after_copies(none, aliases, first).union_prefer_right(added),
        ));
    }
}

/// Naming copies is idempotent: a second pass over the same blocks changes
/// no name, so one pass reaches the fixed point.
pub proof fn naming_copies_is_idempotent(
    names: Map<LocalId, Seq<char>>,
    aliases: Map<LocalId, Seq<char>>,
    blocks: Seq<BlockView>,
)
    ensures
        after_all_copies(after_all_copies(names, aliases, blocks), aliases, blocks)
            == after_all_copies(names, aliases, blocks),
{
    let once = after_all_copies(names, aliases, blocks);
    all_copies_override(names, aliases, blocks);
    all_copies_override(once, aliases, blocks);
    let added = after_all_copies(Map::empty(), aliases, blocks);
    assert(names.union_prefer_right(added).union_prefer_right(added) =~= names.union_prefer_right(
        added,
    ));
}

/// Reads of one block keep the names that are there.
proof fn reads_keep(
    n: Naming,
    captures: Seq<CaptureView>,
    statements: Seq<StatementView>,
    local: LocalId,
)
    requires
        n.names.contains_key(local),
    ensures
        after_reads(n, captures, statements).names.contains_key(local),
        after_reads(n, captures, statements).names[local] == n.names[local],
    decreases statements.len(),
{
    if statements.len() > 0 {
        reads_keep(after_read(n, captures, statements[0]), captures, statements.skip(1), local);
    }
}

/// A capture read never renames a local: a name declared by a `debug`
/// annotation stays.
pub proof fn reads_keep_declared_names(
    n: Naming,
    captures: Seq<CaptureView>,
    blocks: Seq<BlockView>,
    local: LocalId,
)
    requires
        n.names.contains_key(local),
    ensures
        after_all_reads(n, captures, blocks).names.contains_key(local),
        after_all_reads(n, captures, blocks).names[local] == n.names[local],
    decreases blocks.len(),
{
    if blocks.len() > 0 {
        reads_keep(n, captures, blocks[0].statements, local);
        reads_keep_declared_names(
            after_reads(n, captures, blocks[0].statements),
            captures,
            blocks.skip(1),
            local,
        );
    }
}

} // verus!
