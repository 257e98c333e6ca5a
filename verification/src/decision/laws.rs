//! What holds of every function that is walked.
use crate::decision::{
    argument_type, block_leaf, block_with_id, climb, comparison_name, compared_into, conditions,
    continue_arm, declared_type, decision_of, decisions_of, discriminant_read, downcast_variant,
    downstream_branch, first_leaf, follow, holds_discriminant, if_let_node, if_let_shape, ite,
    ladder_shape, match_rungs, reachable_arms, reads_continue, shown_local, switched_local, tag_of,
    type_of, unreachable_block, value_of, walk, with_arm, with_arms, NodeView,
};
use crate::mir::{
    ArgView, BlockId, BlockView, CompareOp, FunctionView, LocalId, LocalView, OperandView,
    StatementView, TerminatorView,
};
use crate::text::decimal;
use vstd::prelude::*;

verus! {

// ---------------------------------------------------------------------------
// Decisions
// ---------------------------------------------------------------------------

/// The decisions of two lists of functions, one behind the other, are those
/// of the first and then those of the second; a single function gives its
/// decision, if it has one. So no decision is lost and all are in order.
pub proof fn decisions_of_joined_functions(s: Seq<FunctionView>, t: Seq<FunctionView>)
    ensures
        decisions_of(s + t) == decisions_of(s) + decisions_of(t),
        s.len() == 1 ==> decisions_of(s) == (match decision_of(s[0]) {
            Some(node) => seq![node],
            None => seq![],
        }),
    decreases t.len(),
{
    if s.len() == 1 {
        assert(s.drop_last() =~= seq![]);
        assert(decisions_of(seq![]) =~= seq![]);
        assert(s.last() == s[0]);
        assert(decisions_of(s) =~= (match decision_of(s[0]) {
            Some(node) => seq![node],
            None => seq![],
        }));
    }
    if t.len() == 0 {
        assert(s + t =~= s);
        assert(decisions_of(s) + decisions_of(t) =~= decisions_of(s));
    } else {
        assert((s + t).drop_last() =~= s + t.drop_last());
        assert((s + t).last() == t.last());
        decisions_of_joined_functions(s, t.drop_last());
        assert(decisions_of(s + t) =~= decisions_of(s) + decisions_of(t));
    }
}

/// Every function with a decision contributes it: it stands behind those of
/// the functions before it.
pub proof fn decision_stands_in_its_place(functions: Seq<FunctionView>, i: int)
    requires
        0 <= i < functions.len(),
        decision_of(functions[i]) is Some,
    ensures
        ({
            let before = decisions_of(functions.take(i)).len() as int;
            &&& before < decisions_of(functions).len()
            &&& decisions_of(functions)[before] == decision_of(functions[i])->0
        }),
{
    let one = seq![functions[i]];
    let rest = functions.skip(i + 1);
    assert(functions =~= functions.take(i) + one + rest);
    decisions_of_joined_functions(functions.take(i) + one, rest);
    decisions_of_joined_functions(functions.take(i), one);
    decisions_of_joined_functions(one, seq![]);
}

// ---------------------------------------------------------------------------
// Values
// ---------------------------------------------------------------------------

/// What a tree means: a condition has the value that it is given, a constant
/// its own, and `if c then y else n` that of `y` where `c` is true and that
/// of `n` where it is false. What is not given has no value.
pub proof fn trees_mean_what_they_say(
    c: Seq<char>,
    y: NodeView,
    n: NodeView,
    inputs: Map<Seq<char>, bool>,
    value: bool,
)
    ensures
        value_of(NodeView::Const { value }, inputs) == Some(value),
        inputs.contains_key(c) ==> value_of(NodeView::Condition { name: c }, inputs) == Some(
            inputs[c],
        ),
        !inputs.contains_key(c) ==> value_of(NodeView::Condition { name: c }, inputs) is None,
        !inputs.contains_key(c) ==> value_of(ite(c, y, n), inputs) is None,
        inputs.contains_key(c) && inputs[c] ==> value_of(ite(c, y, n), inputs) == value_of(
            y,
            inputs,
        ),
        inputs.contains_key(c) && !inputs[c] ==> value_of(ite(c, y, n), inputs) == value_of(
            n,
            inputs,
        ),
{
}

/// The short-circuit operators as trees: `a && b` and `a || b` evaluate `b`
/// only where `a` leaves the outcome open, and give what the operators give.
pub proof fn operators_short_circuit(
    a: Seq<char>,
    b: NodeView,
    inputs: Map<Seq<char>, bool>,
)
    requires
        inputs.contains_key(a),
    ensures
        value_of(ite(a, b, NodeView::Const { value: false }), inputs) == (if inputs[a] {
            value_of(b, inputs)
        } else {
            Some(false)
        }),
        value_of(ite(a, NodeView::Const { value: true }, b), inputs) == (if inputs[a] {
            Some(true)
        } else {
            value_of(b, inputs)
        }),
{
    reveal_with_fuel(value_of, 2);
}

/// The value of a decision depends on its own conditions only.
pub proof fn only_conditions_matter(
    node: NodeView,
    x: Map<Seq<char>, bool>,
    y: Map<Seq<char>, bool>,
)
    requires
        forall|n: Seq<char>| #[trigger] conditions(node).contains(n) ==> x.get(n) == y.get(n),
    ensures
        value_of(node, x) == value_of(node, y),
    decreases node,
{
    match node {
        NodeView::Condition { name } => {
            assert(conditions(node).contains(name));
        },
        NodeView::Const { .. } => {},
        NodeView::Ite { cond, then_branch, else_branch } => {
            assert(conditions(node).contains(cond));
            assert forall|n: Seq<char>| #[trigger] conditions(*then_branch).contains(n) implies x.get(
                n,
            ) == y.get(n) by {
                assert(conditions(node).contains(n));
            }
            assert forall|n: Seq<char>| #[trigger] conditions(*else_branch).contains(n) implies x.get(
                n,
            ) == y.get(n) by {
                assert(conditions(node).contains(n));
            }
            only_conditions_matter(*then_branch, x, y);
            only_conditions_matter(*else_branch, x, y);
        },
    }
}

/// The conditions of a tree are those that it names, and no others.
pub proof fn conditions_are_those_named(c: Seq<char>, y: NodeView, n: NodeView, name: Seq<char>)
    ensures
        conditions(NodeView::Condition { name: c }).contains(name) <==> name == c,
        !conditions(NodeView::Const { value: true }).contains(name),
        !conditions(NodeView::Const { value: false }).contains(name),
        conditions(ite(c, y, n)).contains(name) <==> name == c || conditions(y).contains(name)
            || conditions(n).contains(name),
{
}

// ---------------------------------------------------------------------------
// What is looked up
// ---------------------------------------------------------------------------

/// A block is found by its id wherever it stands; of several the first.
pub proof fn block_is_found(blocks: Seq<BlockView>, id: BlockId)
    ensures
        match block_with_id(blocks, id) {
            Some(b) => exists|i: int|
                0 <= i < blocks.len() && #[trigger] blocks[i] == b && b.id == id && (forall|j: int|
                    0 <= j < i ==> (#[trigger] blocks[j]).id != id),
            None => forall|j: int| 0 <= j < blocks.len() ==> (#[trigger] blocks[j]).id != id,
        },
    decreases blocks.len(),
{
    if blocks.len() > 0 {
        if blocks[0].id == id {
            assert(blocks[0] == blocks[0]);
        } else {
            let rest = blocks.skip(1);
            block_is_found(rest, id);
            match block_with_id(rest, id) {
                Some(b) => {
                    let i = choose|i: int|
                        0 <= i < rest.len() && #[trigger] rest[i] == b && b.id == id && (forall|
                            j: int,
                        | 0 <= j < i ==> (#[trigger] rest[j]).id != id);
                    assert(blocks[i + 1] == b);
                    assert forall|j: int| 0 <= j < i + 1 implies (#[trigger] blocks[j]).id != id by {
                        if j > 0 {
                            assert(rest[j - 1] == blocks[j]);
                        }
                    }
                },
                None => {
                    assert forall|j: int| 0 <= j < blocks.len() implies (#[trigger] blocks[j]).id
                        != id by {
                        if j > 0 {
                            assert(rest[j - 1] == blocks[j]);
                        }
                    }
                },
            }
        }
    }
}

/// The type of a local is that of the first argument with its number, else
/// that of the first `let` with it; it has none only where neither declares
/// it.
pub proof fn type_is_the_declared_one(f: FunctionView, local: LocalId)
    ensures
        forall|i: int|
            0 <= i < f.args.len() && (#[trigger] f.args[i]).local == local && (forall|j: int|
                0 <= j < i ==> (#[trigger] f.args[j]).local != local) ==> type_of(f, local) == Some(
                f.args[i].ty,
            ),
        (forall|j: int| 0 <= j < f.args.len() ==> (#[trigger] f.args[j]).local != local) ==> {
            &&& forall|i: int|
                0 <= i < f.locals.len() && (#[trigger] f.locals[i]).local == local && (forall|j: int|
                    0 <= j < i ==> (#[trigger] f.locals[j]).local != local) ==> type_of(f, local)
                    == Some(f.locals[i].ty)
            &&& (forall|j: int| 0 <= j < f.locals.len() ==> (#[trigger] f.locals[j]).local != local)
                ==> type_of(f, local) is None
        },
{
    assert forall|i: int|
        0 <= i < f.args.len() && (#[trigger] f.args[i]).local == local && (forall|j: int|
            0 <= j < i ==> (#[trigger] f.args[j]).local != local) implies type_of(f, local) == Some(
        f.args[i].ty,
    ) by {
        argument_type_at(f.args, local, i);
    }
    if forall|j: int| 0 <= j < f.args.len() ==> (#[trigger] f.args[j]).local != local {
        argument_type_at(f.args, local, f.args.len() as int);
        assert forall|i: int|
            0 <= i < f.locals.len() && (#[trigger] f.locals[i]).local == local && (forall|j: int|
                0 <= j < i ==> (#[trigger] f.locals[j]).local != local) implies type_of(f, local)
            == Some(f.locals[i].ty) by {
            declared_type_at(f.locals, local, i);
        }
        if forall|j: int| 0 <= j < f.locals.len() ==> (#[trigger] f.locals[j]).local != local {
            declared_type_at(f.locals, local, f.locals.len() as int);
        }
    }
}

proof fn argument_type_at(args: Seq<ArgView>, local: LocalId, i: int)
    requires
        0 <= i <= args.len(),
        i < args.len() ==> args[i].local == local,
        forall|j: int| 0 <= j < i ==> (#[trigger] args[j]).local != local,
    ensures
        argument_type(args, local) == (if i < args.len() {
            Some(args[i].ty)
        } else {
            None
        }),
    decreases i,
{
    if i > 0 {
        assert(args[0].local != local);
        assert forall|j: int| 0 <= j < i - 1 implies (#[trigger] args.skip(1)[j]).local != local by {
            assert(args[j + 1].local != local);
        }
        argument_type_at(args.skip(1), local, i - 1);
    }
}

proof fn declared_type_at(locals: Seq<LocalView>, local: LocalId, i: int)
    requires
        0 <= i <= locals.len(),
        i < locals.len() ==> locals[i].local == local,
        forall|j: int| 0 <= j < i ==> (#[trigger] locals[j]).local != local,
    ensures
        declared_type(locals, local) == (if i < locals.len() {
            Some(locals[i].ty)
        } else {
            None
        }),
    decreases i,
{
    if i > 0 {
        assert(locals[0].local != local);
        assert forall|j: int| 0 <= j < i - 1 implies (#[trigger] locals.skip(1)[j]).local != local by {
            assert(locals[j + 1].local != local);
        }
        declared_type_at(locals.skip(1), local, i - 1);
    }
}

/// Whether a statement sets a value of its own: a constant, a copy of a named
/// local or a comparison, into another local than the one the block branches
/// on.
pub open spec fn sets_value(f: FunctionView, b: BlockView, s: StatementView) -> bool {
    match s {
        StatementView::AssignConstBool { dst, .. } => !branches_on(b, dst),
        StatementView::AssignCopy { dst, src, .. } => !branches_on(b, dst)
            && f.debug_names.contains_key(src),
        StatementView::AssignBinaryCompare { dst, .. } => !branches_on(b, dst),
        _ => false,
    }
}

/// Whether a block branches on a local.
pub open spec fn branches_on(b: BlockView, local: LocalId) -> bool {
    b.terminator matches TerminatorView::SwitchInt { discr, .. } && discr == local
}

/// Whether a value is what a statement sets: the constant, the named local or
/// the comparison, with its destination.
pub open spec fn is_set_by(f: FunctionView, s: StatementView, local: LocalId, value: NodeView) -> bool {
    match s {
        StatementView::AssignConstBool { dst, value: v, .. } => local == dst && value == (
        NodeView::Const { value: v }),
        StatementView::AssignCopy { dst, src, .. } => local == dst && value == (
        NodeView::Condition { name: f.debug_names[src] }),
        StatementView::AssignBinaryCompare { dst, op, lhs, rhs, .. } => local == dst && value == (
        NodeView::Condition { name: comparison_name(f, op, lhs, rhs) }),
        _ => false,
    }
}

proof fn first_leaf_at(f: FunctionView, b: BlockView, statements: Seq<StatementView>, i: int)
    requires
        0 <= i <= statements.len(),
        i < statements.len() ==> sets_value(f, b, statements[i]),
        forall|j: int| 0 <= j < i ==> !sets_value(f, b, #[trigger] statements[j]),
    ensures
        if i < statements.len() {
            first_leaf(f, switched_local(b), statements) matches Some((dst, value)) && is_set_by(
                f,
                statements[i],
                dst,
                value,
            )
        } else {
            first_leaf(f, switched_local(b), statements) is None
        },
    decreases i,
{
    if i > 0 {
        assert(!sets_value(f, b, statements[0]));
        assert forall|j: int| 0 <= j < i - 1 implies !sets_value(
            f,
            b,
            #[trigger] statements.skip(1)[j],
        ) by {
            assert(!sets_value(f, b, statements[j + 1]));
        }
        first_leaf_at(f, b, statements.skip(1), i - 1);
    }
}

/// The value of a block is the first one that its statements set, wherever it
/// stands; a block has none only where no statement sets one.
pub proof fn value_is_the_first_that_is_set(f: FunctionView, b: BlockView, i: int)
    requires
        0 <= i <= b.statements.len(),
        i < b.statements.len() ==> sets_value(f, b, b.statements[i]),
        forall|j: int| 0 <= j < i ==> !sets_value(f, b, #[trigger] b.statements[j]),
    ensures
        if i < b.statements.len() {
            block_leaf(f, b) matches Some((dst, value)) && is_set_by(
                f,
                b.statements[i],
                dst,
                value,
            )
        } else {
            block_leaf(f, b) is None
        },
{
    first_leaf_at(f, b, b.statements, i);
}

/// Whether a statement compares into a local.
pub open spec fn compares_into(s: StatementView, local: LocalId) -> bool {
    s matches StatementView::AssignBinaryCompare { dst, .. } && dst == local
}

/// The test of a local is the first comparison that is written to it,
/// wherever it stands.
pub proof fn test_is_the_first_comparison(
    f: FunctionView,
    statements: Seq<StatementView>,
    local: LocalId,
    i: int,
)
    requires
        0 <= i <= statements.len(),
        i < statements.len() ==> compares_into(statements[i], local),
        forall|j: int| 0 <= j < i ==> !compares_into(#[trigger] statements[j], local),
    ensures
        if i < statements.len() {
            statements[i] matches StatementView::AssignBinaryCompare { op, lhs, rhs, .. }
                && compared_into(f, statements, local) == Some(comparison_name(f, op, lhs, rhs))
        } else {
            compared_into(f, statements, local) is None
        },
    decreases i,
{
    if i > 0 {
        assert(!compares_into(statements[0], local));
        assert forall|j: int| 0 <= j < i - 1 implies !compares_into(
            #[trigger] statements.skip(1)[j],
            local,
        ) by {
            assert(!compares_into(statements[j + 1], local));
        }
        test_is_the_first_comparison(f, statements.skip(1), local, i - 1);
    }
}

/// The discriminant that a block reads is the first one, wherever the read
/// stands.
pub proof fn discriminant_is_the_first_read(statements: Seq<StatementView>, i: int)
    requires
        0 <= i <= statements.len(),
        i < statements.len() ==> statements[i] is AssignDiscriminant,
        forall|j: int| 0 <= j < i ==> !((#[trigger] statements[j]) is AssignDiscriminant),
    ensures
        discriminant_read(statements) == (if i < statements.len() {
            Some((statements[i]->AssignDiscriminant_dst, statements[i]->AssignDiscriminant_src))
        } else {
            None
        }),
    decreases i,
{
    if i > 0 {
        assert(!(statements[0] is AssignDiscriminant));
        assert forall|j: int| 0 <= j < i - 1 implies !((#[trigger] statements.skip(
            1,
        )[j]) is AssignDiscriminant) by {
            assert(!(statements[j + 1] is AssignDiscriminant));
        }
        discriminant_is_the_first_read(statements.skip(1), i - 1);
    }
}

/// Whether a statement reads the discriminant of a local.
pub open spec fn reads_tag_of(s: StatementView, local: LocalId) -> bool {
    s matches StatementView::AssignDiscriminant { src, .. } && src == local
}

/// The tag of a local is where its discriminant is read to first, wherever
/// the read stands.
pub proof fn tag_is_the_first_read(statements: Seq<StatementView>, local: LocalId, i: int)
    requires
        0 <= i <= statements.len(),
        i < statements.len() ==> reads_tag_of(statements[i], local),
        forall|j: int| 0 <= j < i ==> !reads_tag_of(#[trigger] statements[j], local),
    ensures
        tag_of(statements, local) == (if i < statements.len() {
            Some(statements[i]->AssignDiscriminant_dst)
        } else {
            None
        }),
    decreases i,
{
    if i > 0 {
        assert(!reads_tag_of(statements[0], local));
        assert forall|j: int| 0 <= j < i - 1 implies !reads_tag_of(
            #[trigger] statements.skip(1)[j],
            local,
        ) by {
            assert(!reads_tag_of(statements[j + 1], local));
        }
        tag_is_the_first_read(statements.skip(1), local, i - 1);
    }
}

/// Whether a statement downcasts a local.
pub open spec fn downcasts(s: StatementView, local: LocalId) -> bool {
    s matches StatementView::AssignDowncast { src, .. } && src == local
}

/// The variant of an arm is that of its first downcast of the scrutinee,
/// wherever it stands.
pub proof fn variant_is_the_first_downcast(
    statements: Seq<StatementView>,
    local: LocalId,
    i: int,
)
    requires
        0 <= i <= statements.len(),
        i < statements.len() ==> downcasts(statements[i], local),
        forall|j: int| 0 <= j < i ==> !downcasts(#[trigger] statements[j], local),
    ensures
        downcast_variant(statements, local) == (if i < statements.len() {
            Some(statements[i]->AssignDowncast_variant)
        } else {
            None
        }),
    decreases i,
{
    if i > 0 {
        assert(!downcasts(statements[0], local));
        assert forall|j: int| 0 <= j < i - 1 implies !downcasts(
            #[trigger] statements.skip(1)[j],
            local,
        ) by {
            assert(!downcasts(statements[j + 1], local));
        }
        variant_is_the_first_downcast(statements.skip(1), local, i - 1);
    }
}

// ---------------------------------------------------------------------------
// When there is a decision
// ---------------------------------------------------------------------------

/// Whether block `id` is `b`, with no `?` and no value of its own, so that
/// its switch decides what comes next.
pub open spec fn only_branches(f: FunctionView, id: BlockId, b: BlockView) -> bool {
    block_with_id(f.blocks, id) == Some(b) && continue_arm(f, b) is None && block_leaf(f, b) is None
}

/// A block that sets a value, which decides nothing further down, is a
/// decision: that value.
pub proof fn set_value_is_a_decision(f: FunctionView, through: bool, id: BlockId, b: BlockView, depth: nat)
    requires
        depth > 0,
        block_with_id(f.blocks, id) == Some(b),
        continue_arm(f, b) is None,
        block_leaf(f, b) is Some,
        downstream_branch(f, through, b, (block_leaf(f, b)->0).0) is None,
    ensures
        walk(f, through, id, depth) == Some((block_leaf(f, b)->0).1),
{
    reveal_with_fuel(walk, 2);
}

/// A test of a named `bool` is a decision as soon as both its arms are: the
/// arm for 0 is the one where the name is false.
pub proof fn named_test_is_a_decision(
    f: FunctionView,
    through: bool,
    id: BlockId,
    b: BlockView,
    depth: nat,
)
    requires
        only_branches(f, id, b),
        if_let_shape(f, b) is None,
        b.terminator matches TerminatorView::SwitchInt { discr, targets, otherwise, .. } && type_of(
            f,
            discr,
        ) == Some("bool"@) && targets.len() == 1 && targets[0].0 == 0 && f.debug_names.contains_key(
            discr,
        ) && walk(f, through, targets[0].1, depth) is Some && walk(f, through, otherwise, depth) is Some,
    ensures
        b.terminator matches TerminatorView::SwitchInt { discr, targets, otherwise, .. } && walk(
            f,
            through,
            id,
            depth + 1,
        ) == Some(
            ite(
                f.debug_names[discr],
                walk(f, through, otherwise, depth)->0,
                walk(f, through, targets[0].1, depth)->0,
            ),
        ),
{
    reveal_with_fuel(walk, 2);
    reveal_with_fuel(if_let_node, 2);
    reveal_with_fuel(climb, 3);
    let ladder = ladder_shape(f, b)->0;
    assert(walk(f, through, id, depth + 1) == climb(f, through, ladder.rungs, ladder.last, depth));
    assert(ladder.rungs.skip(1) =~= seq![]);
    assert(climb(f, through, seq![], ladder.last, depth) == walk(f, through, ladder.last, depth));
}

proof fn climb_is_there(
    f: FunctionView,
    through: bool,
    rungs: Seq<(Seq<char>, BlockId)>,
    last: BlockId,
    depth: nat,
)
    requires
        walk(f, through, last, depth) is Some,
        forall|k: int| 0 <= k < rungs.len() ==> walk(f, through, (#[trigger] rungs[k]).1, depth) is Some,
    ensures
        climb(f, through, rungs, last, depth) is Some,
    decreases rungs.len(),
{
    reveal_with_fuel(climb, 2);
    if rungs.len() > 0 {
        assert forall|k: int| 0 <= k < rungs.skip(1).len() implies walk(
            f,
            through,
            (#[trigger] rungs.skip(1)[k]).1,
            depth,
        ) is Some by {
            assert(rungs.skip(1)[k] == rungs[k + 1]);
        }
        assert(walk(f, through, rungs[0].1, depth) is Some);
        climb_is_there(f, through, rungs.skip(1), last, depth);
    }
}

proof fn rungs_are_reachable_targets(
    f: FunctionView,
    name: Seq<char>,
    targets: Seq<(u128, BlockId)>,
)
    ensures
        forall|k: int|
            0 <= k < match_rungs(f, name, targets).len() ==> exists|i: int|
                0 <= i < targets.len() && !unreachable_block(f, (#[trigger] targets[i]).1) && (
                #[trigger] match_rungs(f, name, targets)[k]).1 == targets[i].1,
        (exists|i: int| 0 <= i < targets.len() && !unreachable_block(f, (#[trigger] targets[i]).1))
            ==> match_rungs(f, name, targets).len() > 0,
    decreases targets.len(),
{
    if targets.len() > 0 {
        let fewer = targets.drop_last();
        let rest = match_rungs(f, name, fewer);
        let all = match_rungs(f, name, targets);
        rungs_are_reachable_targets(f, name, fewer);
        assert forall|k: int| 0 <= k < all.len() implies exists|i: int|
            0 <= i < targets.len() && !unreachable_block(f, (#[trigger] targets[i]).1) && (
            #[trigger] all[k]).1 == targets[i].1 by {
            if k < rest.len() {
                assert(all[k] == rest[k]);
                let i = choose|i: int|
                    0 <= i < fewer.len() && !unreachable_block(f, (#[trigger] fewer[i]).1)
                        && rest[k].1 == fewer[i].1;
                assert(targets[i] == fewer[i]);
            } else {
                assert(targets[targets.len() - 1] == targets.last());
            }
        }
        if exists|i: int| 0 <= i < targets.len() && !unreachable_block(
            f,
            (#[trigger] targets[i]).1,
        ) {
            let i = choose|i: int|
                0 <= i < targets.len() && !unreachable_block(f, (#[trigger] targets[i]).1);
            if i < fewer.len() {
                assert(fewer[i] == targets[i]);
            }
        }
    }
}

/// A `match` on literals, with any number of arms, is a decision as soon as
/// each arm that can be reached is one.
pub proof fn literal_match_is_a_decision(
    f: FunctionView,
    through: bool,
    id: BlockId,
    b: BlockView,
    depth: nat,
)
    requires
        only_branches(f, id, b),
        b.terminator matches TerminatorView::SwitchInt { discr, targets, otherwise, .. } && {
            &&& !(type_of(f, discr) == Some("bool"@) && targets.len() == 1 && targets[0].0 == 0)
            &&& !holds_discriminant(b.statements, discr)
            &&& exists|i: int|
                0 <= i < targets.len() && !unreachable_block(f, (#[trigger] targets[i]).1)
            &&& forall|i: int|
                0 <= i < targets.len() && !unreachable_block(f, (#[trigger] targets[i]).1) ==> walk(
                    f,
                    through,
                    targets[i].1,
                    depth,
                ) is Some
            &&& !unreachable_block(f, otherwise) ==> walk(f, through, otherwise, depth) is Some
        },
    ensures
        walk(f, through, id, depth + 1) is Some,
{
    reveal_with_fuel(walk, 2);
    if let TerminatorView::SwitchInt { discr, targets, otherwise, .. } = b.terminator {
        let rungs = match_rungs(f, shown_local(f, discr), targets);
        rungs_are_reachable_targets(f, shown_local(f, discr), targets);
        assert forall|k: int| 0 <= k < rungs.len() implies walk(
            f,
            through,
            (#[trigger] rungs[k]).1,
            depth,
        ) is Some by {
            let i = choose|i: int|
                0 <= i < targets.len() && !unreachable_block(f, (#[trigger] targets[i]).1)
                    && rungs[k].1 == targets[i].1;
            assert(walk(f, through, targets[i].1, depth) is Some);
        }
        if if_let_node(f, through, b, depth) is None {
            if unreachable_block(f, otherwise) {
                assert(rungs[rungs.len() - 1] == rungs.last());
                climb_is_there(f, through, rungs.drop_last(), rungs.last().1, depth);
            } else {
                climb_is_there(f, through, rungs, otherwise, depth);
            }
        }
    }
}

/// A switch on the discriminant of a scrutinee, with two arms that can be
/// reached, is a decision as soon as both arms are and one of them downcasts
/// the scrutinee.
pub proof fn if_let_is_a_decision(
    f: FunctionView,
    through: bool,
    id: BlockId,
    b: BlockView,
    scrutinee: LocalId,
    depth: nat,
)
    requires
        only_branches(f, id, b),
        b.terminator matches TerminatorView::SwitchInt { discr, targets, otherwise, .. } && {
            let arms = reachable_arms(f, targets, otherwise);
            &&& discriminant_read(b.statements) == Some((discr, scrutinee))
            &&& arms.len() == 2
            &&& walk(f, through, arms[0], depth) is Some
            &&& walk(f, through, arms[1], depth) is Some
            &&& exists|k: int|
                0 <= k < 2 && block_with_id(f.blocks, #[trigger] arms[k]) is Some
                    && downcast_variant(
                    (block_with_id(f.blocks, arms[k])->0).statements,
                    scrutinee,
                ) is Some
        },
    ensures
        walk(f, through, id, depth + 1) is Some,
{
    reveal_with_fuel(walk, 2);
    reveal_with_fuel(if_let_node, 2);
    if let TerminatorView::SwitchInt { discr, targets, otherwise, .. } = b.terminator {
        let arms = reachable_arms(f, targets, otherwise);
        let k = choose|k: int|
            0 <= k < 2 && block_with_id(f.blocks, #[trigger] arms[k]) is Some && downcast_variant(
                (block_with_id(f.blocks, arms[k])->0).statements,
                scrutinee,
            ) is Some;
        assert(if_let_shape(f, b) is Some);
        assert(if_let_node(f, through, b, depth) is Some);
    }
}

/// The literals of a `match` are tested in the order of the switch: the rungs
/// of two lists of arms, one behind the other, are those of the first and
/// then those of the second.
pub proof fn rungs_of_joined_arms(
    f: FunctionView,
    name: Seq<char>,
    s: Seq<(u128, BlockId)>,
    t: Seq<(u128, BlockId)>,
)
    ensures
        match_rungs(f, name, s + t) == match_rungs(f, name, s) + match_rungs(f, name, t),
        s.len() == 1 && !unreachable_block(f, s[0].1) ==> match_rungs(f, name, s) == seq![
            (name + " == "@ + decimal(s[0].0 as nat), s[0].1),
        ],
    decreases t.len(),
{
    if s.len() == 1 {
        assert(s.drop_last() =~= seq![]);
        assert(match_rungs(f, name, seq![]) =~= seq![]);
        assert(s.last() == s[0]);
        if !unreachable_block(f, s[0].1) {
            assert(match_rungs(f, name, s) =~= seq![
                (name + " == "@ + decimal(s[0].0 as nat), s[0].1),
            ]);
        }
    }
    if t.len() == 0 {
        assert(s + t =~= s);
        assert(match_rungs(f, name, s) + match_rungs(f, name, t) =~= match_rungs(f, name, s));
    } else {
        assert((s + t).drop_last() =~= s + t.drop_last());
        assert((s + t).last() == t.last());
        rungs_of_joined_arms(f, name, s, t.drop_last());
        assert(match_rungs(f, name, s + t) =~= match_rungs(f, name, s) + match_rungs(f, name, t));
    }
}

// ---------------------------------------------------------------------------
// Shapes
// ---------------------------------------------------------------------------

proof fn listed_arms(
    f: FunctionView,
    arms: Seq<BlockId>,
    targets: Seq<(u128, BlockId)>,
    t: BlockId,
)
    requires
        arms.no_duplicates(),
    ensures
        with_arms(f, arms, targets).no_duplicates(),
        with_arms(f, arms, targets).contains(t) <==> arms.contains(t) || (!unreachable_block(f, t)
            && exists|i: int| 0 <= i < targets.len() && (#[trigger] targets[i]).1 == t),
    decreases targets.len(),
{
    if targets.len() > 0 {
        let more = with_arm(f, arms, targets[0].1);
        one_more_arm(f, arms, targets[0].1, t);
        listed_arms(f, more, targets.skip(1), t);
        let rest = targets.skip(1);
        if exists|i: int| 0 <= i < targets.len() && (#[trigger] targets[i]).1 == t {
            let i = choose|i: int| 0 <= i < targets.len() && (#[trigger] targets[i]).1 == t;
            if i > 0 {
                assert(rest[i - 1].1 == t);
            }
        }
        if exists|i: int| 0 <= i < rest.len() && (#[trigger] rest[i]).1 == t {
            let i = choose|i: int| 0 <= i < rest.len() && (#[trigger] rest[i]).1 == t;
            assert(targets[i + 1].1 == t);
        }
    }
}

proof fn one_more_arm(f: FunctionView, arms: Seq<BlockId>, target: BlockId, t: BlockId)
    requires
        arms.no_duplicates(),
    ensures
        with_arm(f, arms, target).no_duplicates(),
        with_arm(f, arms, target).contains(t) <==> arms.contains(t) || (t == target
            && !unreachable_block(f, target)),
{
    let more = with_arm(f, arms, target);
    if !unreachable_block(f, target) && !arms.contains(target) {
        assert(more == arms.push(target));
        assert(more[more.len() - 1] == target);
        if arms.contains(t) {
            let k = choose|k: int| 0 <= k < arms.len() && arms[k] == t;
            assert(more[k] == t);
        }
        if more.contains(t) && t != target {
            let k = choose|k: int| 0 <= k < more.len() && more[k] == t;
            assert(arms[k] == t);
        }
        assert forall|i: int, j: int| 0 <= i < more.len() && 0 <= j < more.len() && i != j implies more[i]
            != more[j] by {
            if i < arms.len() && j < arms.len() {
                assert(arms[i] != arms[j]);
            } else if i < arms.len() {
                assert(arms.contains(arms[i]));
            } else {
                assert(arms.contains(arms[j]));
            }
        }
    }
}

/// The arms of a switch that can be reached are its targets, and its
/// `otherwise`, that are not marked as impossible, each once.
pub proof fn arms_are_the_reachable_targets(
    f: FunctionView,
    targets: Seq<(u128, BlockId)>,
    otherwise: BlockId,
    t: BlockId,
)
    ensures
        reachable_arms(f, targets, otherwise).no_duplicates(),
        reachable_arms(f, targets, otherwise).contains(t) <==> (t == otherwise || exists|i: int|
            0 <= i < targets.len() && (#[trigger] targets[i]).1 == t) && !(block_with_id(
            f.blocks,
            t,
        ) matches Some(b) && b.terminator is Unreachable),
{
    listed_arms(f, seq![], targets, t);
    one_more_arm(f, with_arms(f, seq![], targets), otherwise, t);
}

/// A `?` is passed over: a block that ends in a call of `Try::branch`, whose
/// result is branched on with two arms, is what its arm for `Continue` is.
pub proof fn question_mark_is_passed_over(
    f: FunctionView,
    through: bool,
    id: BlockId,
    b: BlockView,
    branch: BlockView,
    path: Seq<char>,
    k: int,
    s: int,
    depth: nat,
)
    requires
        block_with_id(f.blocks, id) == Some(b),
        b.terminator matches TerminatorView::Call { dst, func_text, target, .. } && {
            &&& func_text == path + "Try>::branch"@ || func_text == path + "Try::branch"@
            &&& block_with_id(f.blocks, target) == Some(branch)
            &&& branch.terminator matches TerminatorView::SwitchInt { discr, targets, otherwise, .. }
                && tag_of(branch.statements, dst) == Some(discr) && ({
                let arms = reachable_arms(f, targets, otherwise);
                &&& arms.len() == 2
                &&& 0 <= k < 2
                &&& block_with_id(f.blocks, arms[k]) is Some
                &&& ({
                    let arm = block_with_id(f.blocks, arms[k])->0;
                    &&& 0 <= s < arm.statements.len()
                    &&& arm.statements[s] matches StatementView::AssignDowncast { src, variant, .. }
                        && src == dst && variant == "Continue"@
                })
                &&& k == 1 ==> (block_with_id(f.blocks, arms[0]) matches Some(other) ==> forall|
                    j: int,
                |
                    0 <= j < other.statements.len() ==> !downcasts(
                        #[trigger] other.statements[j],
                        dst,
                    ))
            })
        },
    ensures
        ({
            let switch = branch.terminator;
            let arms = reachable_arms(f, switch->SwitchInt_targets, switch->SwitchInt_otherwise);
            walk(f, through, id, depth + 1) == walk(f, through, arms[k], depth)
        }),
{
    reveal_with_fuel(walk, 2);
    crate::text::laws::prefix_and_suffix_come_off("Try>::branch"@, path);
    crate::text::laws::prefix_and_suffix_come_off("Try::branch"@, path);
    let switch = branch.terminator;
    let arms = reachable_arms(f, switch->SwitchInt_targets, switch->SwitchInt_otherwise);
    let dst = b.terminator->Call_dst;
    let arm = block_with_id(f.blocks, arms[k])->0;
    assert(arm.statements[s] is AssignDowncast);
    assert(reads_continue(f, arms[k], dst));
    if k == 1 {
        if let Some(other) = block_with_id(f.blocks, arms[0]) {
            assert forall|j: int| 0 <= j < other.statements.len() implies !((
            #[trigger] other.statements[j]) is AssignDowncast
                && other.statements[j]->AssignDowncast_src == dst
                && other.statements[j]->AssignDowncast_variant == "Continue"@) by {
                assert(!downcasts(other.statements[j], dst));
            }
        }
    }
    assert(continue_arm(f, b) == Some(arms[k]));
}

/// Only a call of `Try::branch` is passed over.
pub proof fn other_calls_are_not_passed_over(f: FunctionView, b: BlockView)
    requires
        continue_arm(f, b) is Some,
    ensures
        b.terminator matches TerminatorView::Call { func_text, .. } && exists|path: Seq<char>|
            func_text == #[trigger] (path + "Try>::branch"@) || func_text == path
                + "Try::branch"@,
{
    if let TerminatorView::Call { func_text, .. } = b.terminator {
        crate::text::laws::prefix_and_suffix_were_there(func_text, "Try>::branch"@);
        crate::text::laws::prefix_and_suffix_were_there(func_text, "Try::branch"@);
        if crate::text::ends_in(func_text, "Try>::branch"@) {
            let path = crate::text::before_suffix(func_text, "Try>::branch"@)->0;
            assert(func_text == path + "Try>::branch"@);
        } else {
            let path = crate::text::before_suffix(func_text, "Try::branch"@)->0;
            assert(path + "Try>::branch"@ == path + "Try>::branch"@);
            assert(func_text == path + "Try::branch"@);
        }
    }
}

/// The test of an `if let` is named after its scrutinee and the variant that
/// its matched arm downcasts to; its arms are those that can be reached.
pub proof fn if_let_is_named_after_its_variant(f: FunctionView, b: BlockView)
    requires
        if_let_shape(f, b) is Some,
    ensures
        discriminant_read(b.statements) is Some,
        ({
            let (cond, matched, other) = if_let_shape(f, b)->0;
            let (tag, scrutinee) = discriminant_read(b.statements)->0;
            b.terminator matches TerminatorView::SwitchInt { discr, targets, otherwise, .. } && ({
                let arms = reachable_arms(f, targets, otherwise);
                &&& discr == tag
                &&& arms.len() == 2
                &&& (matched == arms[0] && other == arms[1]) || (matched == arms[1] && other
                    == arms[0])
                &&& block_with_id(f.blocks, matched) matches Some(arm) && (downcast_variant(
                    arm.statements,
                    scrutinee,
                ) matches Some(variant) && cond == shown_local(f, scrutinee) + " is "@ + variant)
            })
        }),
{
}

/// A local is shown by its name, or by its number where it has none.
pub proof fn locals_are_shown_by_name(f: FunctionView, local: LocalId)
    ensures
        f.debug_names.contains_key(local) ==> shown_local(f, local) == f.debug_names[local],
        !f.debug_names.contains_key(local) ==> shown_local(f, local) == "_"@ + decimal(local as nat),
{
}

/// A comparison is named as it is written in the source: the operands, with
/// locals by name and literals without their type, around the operator.
pub proof fn comparisons_are_named_as_written(
    f: FunctionView,
    local: LocalId,
    literal: Seq<char>,
)
    requires
        f.debug_names.contains_key(local),
    ensures
        ({
            let x = OperandView::Copy(local);
            let y = OperandView::Move(local);
            let c = OperandView::Const(literal);
            let name = f.debug_names[local];
            &&& comparison_name(f, CompareOp::Eq, x, c) == name + " "@ + "=="@ + " "@
                + c.display_value()
            &&& comparison_name(f, CompareOp::Ne, x, c) == name + " "@ + "!="@ + " "@
                + c.display_value()
            &&& comparison_name(f, CompareOp::Lt, c, y) == c.display_value() + " "@ + "<"@ + " "@
                + name
            &&& comparison_name(f, CompareOp::Le, x, y) == name + " "@ + "<="@ + " "@ + name
            &&& comparison_name(f, CompareOp::Gt, y, c) == name + " "@ + ">"@ + " "@
                + c.display_value()
            &&& comparison_name(f, CompareOp::Ge, c, c) == c.display_value() + " "@ + ">="@ + " "@
                + c.display_value()
        }),
{
}

/// A test of a `bool` without a name, which a comparison in the block
/// computes, is a decision as soon as both its arms are; the condition is
/// the comparison.
pub proof fn compared_test_is_a_decision(
    f: FunctionView,
    through: bool,
    id: BlockId,
    b: BlockView,
    depth: nat,
)
    requires
        only_branches(f, id, b),
        if_let_shape(f, b) is None,
        b.terminator matches TerminatorView::SwitchInt { discr, targets, otherwise, .. } && type_of(
            f,
            discr,
        ) == Some("bool"@) && targets.len() == 1 && targets[0].0 == 0
            && !f.debug_names.contains_key(discr) && compared_into(f, b.statements, discr) is Some
            && walk(f, through, targets[0].1, depth) is Some && walk(
            f,
            through,
            otherwise,
            depth,
        ) is Some,
    ensures
        b.terminator matches TerminatorView::SwitchInt { discr, targets, otherwise, .. } && walk(
            f,
            through,
            id,
            depth + 1,
        ) == Some(
            ite(
                compared_into(f, b.statements, discr)->0,
                walk(f, through, otherwise, depth)->0,
                walk(f, through, targets[0].1, depth)->0,
            ),
        ),
{
    reveal_with_fuel(walk, 2);
    reveal_with_fuel(if_let_node, 2);
    reveal_with_fuel(climb, 3);
    let ladder = ladder_shape(f, b)->0;
    assert(walk(f, through, id, depth + 1) == climb(f, through, ladder.rungs, ladder.last, depth));
    assert(ladder.rungs.skip(1) =~= seq![]);
    assert(climb(f, through, seq![], ladder.last, depth) == walk(f, through, ladder.last, depth));
}

/// An intermediate value is followed: a block that sets a local other than
/// the return place, and jumps to a block that only branches on it, is what
/// the branch makes of the value. A constant takes its arm; a condition is
/// tested.
pub proof fn intermediate_value_is_followed(
    f: FunctionView,
    id: BlockId,
    b: BlockView,
    next: BlockView,
    depth: nat,
)
    requires
        block_with_id(f.blocks, id) == Some(b),
        continue_arm(f, b) is None,
        block_leaf(f, b) is Some,
        (block_leaf(f, b)->0).0 != 0,
        b.terminator matches TerminatorView::Goto { target, .. } && block_with_id(f.blocks, target)
            == Some(next),
        block_leaf(f, next) is None,
        next.terminator matches TerminatorView::SwitchInt { discr, targets, .. } && discr == (
        block_leaf(f, b)->0).0 && targets.len() == 1 && targets[0].0 == 0,
    ensures
        ({
            let yes = next.terminator->SwitchInt_otherwise;
            let no = next.terminator->SwitchInt_targets[0].1;
            match (block_leaf(f, b)->0).1 {
                NodeView::Const { value } => walk(f, true, id, depth + 1) == walk(
                    f,
                    true,
                    if value {
                        yes
                    } else {
                        no
                    },
                    depth,
                ),
                NodeView::Condition { name } => walk(f, true, yes, depth) is Some && walk(
                    f,
                    true,
                    no,
                    depth,
                ) is Some ==> walk(f, true, id, depth + 1) == Some(
                    ite(name, walk(f, true, yes, depth)->0, walk(f, true, no, depth)->0),
                ),
                NodeView::Ite { .. } => true,
            }
        }),
{
    reveal_with_fuel(walk, 2);
    reveal_with_fuel(follow, 2);
}

/// The decision of a function is found from its first block; intermediate
/// values are followed through, unless only what is found without that is a
/// decision. A function without blocks has none.
pub proof fn decision_begins_at_the_first_block(f: FunctionView)
    ensures
        f.blocks.len() == 0 ==> decision_of(f) is None,
        f.blocks.len() > 0 ==> ({
            let through = walk(f, true, f.blocks[0].id, f.blocks.len());
            decision_of(f) == if through is Some {
                through
            } else {
                walk(f, false, f.blocks[0].id, f.blocks.len())
            }
        }),
{
}

/// A local holds a discriminant as soon as any statement of the block reads
/// one into it, wherever it stands, and only then.
pub proof fn any_read_makes_a_discriminant(statements: Seq<StatementView>, local: LocalId, i: int)
    ensures
        0 <= i < statements.len() && (statements[i] matches StatementView::AssignDiscriminant {
            dst,
            ..
        } && dst == local) ==> holds_discriminant(statements, local),
        (forall|j: int|
            0 <= j < statements.len() ==> !((#[trigger] statements[j]) is AssignDiscriminant)) ==> !holds_discriminant(
            statements,
            local,
        ),
{
}

// ---------------------------------------------------------------------------
// When there is none
// ---------------------------------------------------------------------------

/// Only values that are followed through, in other locals than the return
/// place, and that a jump takes to a block that sets nothing and branches on
/// them as a `bool`, are intermediate ones.
pub proof fn only_such_values_are_followed(
    f: FunctionView,
    through: bool,
    b: BlockView,
    dst: LocalId,
)
    requires
        downstream_branch(f, through, b, dst) is Some,
    ensures
        through,
        dst != 0,
        b.terminator matches TerminatorView::Goto { target, .. } && (block_with_id(
            f.blocks,
            target,
        ) matches Some(next) && block_leaf(f, next) is None && (
        next.terminator matches TerminatorView::SwitchInt { discr, targets, .. } && discr == dst
            && targets.len() == 1 && targets[0].0 == 0)),
{
}

/// A block that neither sets a value nor branches is no decision, and neither
/// is a switch that is no test: one on a discriminant that no arm downcasts,
/// one on a `bool` without a name or a comparison, or one without an arm that
/// can be reached.
pub proof fn other_blocks_are_no_decision(
    f: FunctionView,
    through: bool,
    id: BlockId,
    b: BlockView,
    depth: nat,
)
    requires
        only_branches(f, id, b),
        if_let_shape(f, b) is None,
        b.terminator matches TerminatorView::SwitchInt { discr, targets, .. } ==> {
            let tested = type_of(f, discr) == Some("bool"@) && targets.len() == 1 && targets[0].0
                == 0;
            ||| tested && !f.debug_names.contains_key(discr) && compared_into(
                f,
                b.statements,
                discr,
            ) is None
            ||| !tested && holds_discriminant(b.statements, discr)
            ||| !tested && forall|i: int|
                0 <= i < targets.len() ==> unreachable_block(f, (#[trigger] targets[i]).1)
        },
    ensures
        walk(f, through, id, depth) is None,
{
    reveal_with_fuel(walk, 2);
    reveal_with_fuel(if_let_node, 2);
    if let TerminatorView::SwitchInt { discr, targets, .. } = b.terminator {
        if forall|i: int| 0 <= i < targets.len() ==> unreachable_block(f, (#[trigger] targets[i]).1) {
            no_rungs(f, shown_local(f, discr), targets);
        }
    }
}

proof fn no_rungs(f: FunctionView, name: Seq<char>, targets: Seq<(u128, BlockId)>)
    requires
        forall|i: int| 0 <= i < targets.len() ==> unreachable_block(f, (#[trigger] targets[i]).1),
    ensures
        match_rungs(f, name, targets).len() == 0,
    decreases targets.len(),
{
    if targets.len() > 0 {
        assert forall|i: int| 0 <= i < targets.drop_last().len() implies unreachable_block(
            f,
            (#[trigger] targets.drop_last()[i]).1,
        ) by {
            assert(targets.drop_last()[i] == targets[i]);
        }
        assert(targets[targets.len() - 1] == targets.last());
        no_rungs(f, name, targets.drop_last());
    }
}

/// A block that does not exist, and a walk of no length, give no decision. Of
/// the two arms of an `if let` that both downcast, the first is the matched
/// one.
pub proof fn missing_block_is_no_decision(
    f: FunctionView,
    through: bool,
    id: BlockId,
    b: BlockView,
    depth: nat,
)
    ensures
        (forall|j: int| 0 <= j < f.blocks.len() ==> (#[trigger] f.blocks[j]).id != id) ==> walk(
            f,
            through,
            id,
            depth,
        ) is None,
        if_let_shape(f, b) matches Some((_, matched, _)) ==> ({
            let (tag, scrutinee) = discriminant_read(b.statements)->0;
            let arms = reachable_arms(
                f,
                b.terminator->SwitchInt_targets,
                b.terminator->SwitchInt_otherwise,
            );
            (block_with_id(f.blocks, arms[0]) matches Some(arm) && downcast_variant(
                arm.statements,
                scrutinee,
            ) is Some) ==> matched == arms[0]
        }),
{
    block_is_found(f.blocks, id);
    reveal_with_fuel(walk, 2);
}

} // verus!
