//! Running the blocks of a function by what their switches read.
//!
//! Here a `switchInt` goes where the value that it reads leads, and nothing
//! is known of conditions but the values that are set from them. A decision
//! is right if it foretells the outcome of every such run.
use crate::decision::{
    block_leaf, block_with_id, climb, compared_into, continue_arm, decision_of, decision_within,
    downstream_branch, follow, holds_discriminant, if_let_node, if_let_shape, ite, ladder_shape,
    leaves_are_simple, match_rungs, reachable_arms, shown_local, switched_local, type_of,
    unreachable_block, value_of, walk, with_arm, with_arms, NodeView,
};
use crate::mir::{BlockId, BlockView, FunctionView, LocalId, TerminatorView};
use crate::text::decimal;
use vstd::prelude::*;

verus! {

/// The block that a switch goes to when it reads `value`.
pub open spec fn arm_for(
    targets: Seq<(u128, BlockId)>,
    otherwise: BlockId,
    value: u128,
) -> BlockId
    decreases targets.len(),
{
    if targets.len() == 0 {
        otherwise
    } else if targets[0].0 == value {
        targets[0].1
    } else {
        arm_for(targets.skip(1), otherwise, value)
    }
}

/// The block that the switch at the end of block `id` goes to, where the
/// switch of each block reads the value `read`.
pub open spec fn taken(f: FunctionView, id: BlockId, read: spec_fn(BlockId) -> u128) -> Option<
    BlockId,
> {
    match block_with_id(f.blocks, id) {
        Some(b) => match b.terminator {
            TerminatorView::SwitchInt { targets, otherwise, .. } => Some(
                arm_for(targets, otherwise, read(id)),
            ),
            _ => None,
        },
        None => None,
    }
}

/// What running one block leads to.
pub enum Course {
    /// The run goes on with another block.
    Goes(BlockId),
    /// The value is set that the run is for.
    Ends(bool),
    /// The run cannot go on.
    Stops,
}

/// The course on to a block, if there is one.
pub open spec fn on_to(id: Option<BlockId>) -> Course {
    match id {
        Some(t) => Course::Goes(t),
        None => Course::Stops,
    }
}

/// The course of block `id`. A `?` goes where the switch behind it goes. A
/// value that is set ends the run, unless it is followed `through` to a
/// branch that it decides. Any other block goes where its switch goes.
pub open spec fn course(
    f: FunctionView,
    through: bool,
    id: BlockId,
    read: spec_fn(BlockId) -> u128,
    inputs: Map<Seq<char>, bool>,
) -> Course {
    match block_with_id(f.blocks, id) {
        Some(b) => match (b.terminator, continue_arm(f, b)) {
            (TerminatorView::Call { target, .. }, Some(_)) => on_to(taken(f, target, read)),
            _ => match block_leaf(f, b) {
                Some((dst, value)) => match (
                    value_of(value, inputs),
                    downstream_branch(f, through, b, dst),
                ) {
                    (Some(v), Some((yes, no))) => Course::Goes(
                        if v {
                            yes
                        } else {
                            no
                        },
                    ),
                    (Some(v), None) => Course::Ends(v),
                    (None, _) => Course::Stops,
                },
                None => on_to(taken(f, id, read)),
            },
        },
        None => Course::Stops,
    }
}

/// The outcome of running the blocks from `id` on, for at most `steps`
/// blocks.
pub open spec fn execution(
    f: FunctionView,
    through: bool,
    id: BlockId,
    read: spec_fn(BlockId) -> u128,
    inputs: Map<Seq<char>, bool>,
    steps: nat,
) -> Option<bool>
    decreases steps,
{
    if steps == 0 {
        None
    } else {
        match course(f, through, id, read, inputs) {
            Course::Goes(t) => execution(f, through, t, read, inputs, (steps - 1) as nat),
            Course::Ends(v) => Some(v),
            Course::Stops => None,
        }
    }
}

/// The name of the test that a switch on a `bool` makes.
pub open spec fn tested_name(f: FunctionView, b: BlockView, discr: LocalId) -> Option<Seq<char>> {
    if f.debug_names.contains_key(discr) {
        Some(f.debug_names[discr])
    } else {
        compared_into(f, b.statements, discr)
    }
}

/// Whether an assignment of the conditions tells of the switch of a block
/// what it does when it reads `value`: a named `bool` is true unless it reads
/// 0, `x is V` holds if it goes to the arm of `V`, and `n == v` if it reads
/// `v`. No switch goes to a block that the compiler marked as impossible.
pub open spec fn tells_switch(
    f: FunctionView,
    b: BlockView,
    value: u128,
    inputs: Map<Seq<char>, bool>,
) -> bool {
    match b.terminator {
        TerminatorView::SwitchInt { discr, targets, otherwise, .. } => {
            let t = arm_for(targets, otherwise, value);
            &&& !unreachable_block(f, t)
            &&& if_let_shape(f, b) matches Some((cond, matched, _)) ==> inputs.get(cond) == Some(
                t == matched,
            )
            &&& if type_of(f, discr) == Some("bool"@) && targets.len() == 1 && targets[0].0 == 0 {
                tested_name(f, b, discr) matches Some(name) ==> inputs.get(name) == Some(value != 0)
            } else {
                !holds_discriminant(b.statements, discr) ==> tells_values(
                    f,
                    shown_local(f, discr),
                    targets,
                    value,
                    inputs,
                )
            }
        },
        _ => true,
    }
}

/// Whether an assignment tells of each literal of a `match` whether `value`
/// equals it.
pub open spec fn tells_values(
    f: FunctionView,
    name: Seq<char>,
    targets: Seq<(u128, BlockId)>,
    value: u128,
    inputs: Map<Seq<char>, bool>,
) -> bool {
    forall|i: int|
        0 <= i < targets.len() && !unreachable_block(f, (#[trigger] targets[i]).1) ==> inputs.get(
            name + " == "@ + decimal(targets[i].0 as nat),
        ) == Some(value == targets[i].0)
}

/// Whether an assignment of the conditions tells what block `id` does: a `?`
/// goes on, and its switch does what the conditions say.
pub open spec fn tells_block(
    f: FunctionView,
    id: BlockId,
    read: spec_fn(BlockId) -> u128,
    inputs: Map<Seq<char>, bool>,
) -> bool {
    match block_with_id(f.blocks, id) {
        Some(b) => {
            &&& tells_switch(f, b, read(id), inputs)
            &&& (b.terminator, continue_arm(f, b)) matches (
                TerminatorView::Call { target, .. },
                Some(arm),
            ) ==> taken(f, target, read) == Some(arm)
        },
        None => true,
    }
}

/// Whether an assignment of the conditions tells what each block does that is
/// run from `id` on.
pub open spec fn tells(
    f: FunctionView,
    through: bool,
    id: BlockId,
    read: spec_fn(BlockId) -> u128,
    inputs: Map<Seq<char>, bool>,
    steps: nat,
) -> bool
    decreases steps,
{
    steps > 0 ==> {
        &&& tells_block(f, id, read, inputs)
        &&& course(f, through, id, read, inputs) matches Course::Goes(t) ==> tells(
            f,
            through,
            t,
            read,
            inputs,
            (steps - 1) as nat,
        )
    }
}

// ---------------------------------------------------------------------------
// Arms and rungs
// ---------------------------------------------------------------------------

proof fn arms_stay(f: FunctionView, arms: Seq<BlockId>, targets: Seq<(u128, BlockId)>, t: BlockId)
    requires
        arms.contains(t),
    ensures
        with_arms(f, arms, targets).contains(t),
    decreases targets.len(),
{
    if targets.len() > 0 {
        let more = with_arm(f, arms, targets[0].1);
        let k = choose|k: int| 0 <= k < arms.len() && arms[k] == t;
        assert(more[k] == t);
        arms_stay(f, more, targets.skip(1), t);
    }
}

proof fn taken_arm_is_listed(
    f: FunctionView,
    arms: Seq<BlockId>,
    targets: Seq<(u128, BlockId)>,
    otherwise: BlockId,
    value: u128,
)
    requires
        !unreachable_block(f, arm_for(targets, otherwise, value)),
    ensures
        with_arm(f, with_arms(f, arms, targets), otherwise).contains(
            arm_for(targets, otherwise, value),
        ),
    decreases targets.len(),
{
    if targets.len() == 0 {
        let last = with_arm(f, arms, otherwise);
        if !arms.contains(otherwise) {
            assert(last[last.len() - 1] == otherwise);
        }
    } else {
        let more = with_arm(f, arms, targets[0].1);
        if targets[0].0 == value {
            let t = targets[0].1;
            if !arms.contains(t) {
                assert(more[more.len() - 1] == t);
            }
            arms_stay(f, more, targets.skip(1), t);
            let all = with_arms(f, more, targets.skip(1));
            let k = choose|k: int| 0 <= k < all.len() && all[k] == t;
            assert(with_arm(f, all, otherwise)[k] == t);
        } else {
            taken_arm_is_listed(f, more, targets.skip(1), otherwise, value);
        }
    }
}

/// A switch goes to its last arm, or nowhere else for another last arm.
proof fn arm_or_last(targets: Seq<(u128, BlockId)>, x: BlockId, y: BlockId, value: u128)
    ensures
        arm_for(targets, x, value) == x || arm_for(targets, x, value) == arm_for(targets, y, value),
    decreases targets.len(),
{
    if targets.len() > 0 {
        arm_or_last(targets.skip(1), x, y, value);
    }
}

/// The last explicit arm of a switch as its `otherwise`.
proof fn last_arm_unfolds(targets: Seq<(u128, BlockId)>, otherwise: BlockId, value: u128)
    requires
        targets.len() > 0,
    ensures
        arm_for(targets, otherwise, value) == arm_for(
            targets.drop_last(),
            if targets.last().0 == value {
                targets.last().1
            } else {
                otherwise
            },
            value,
        ),
    decreases targets.len(),
{
    if targets.len() == 1 {
        assert(targets.skip(1) =~= seq![]);
        assert(targets.drop_last() =~= seq![]);
        assert(targets[0] == targets.last());
        assert(arm_for(seq![], otherwise, value) == otherwise);
    } else {
        let rest = targets.skip(1);
        last_arm_unfolds(rest, otherwise, value);
        assert(rest.last() == targets.last());
        assert(rest.drop_last() =~= targets.drop_last().skip(1));
        assert(targets.drop_last()[0] == targets[0]);
    }
}

/// The block of the first rung whose condition holds, or the last one.
spec fn selected(
    rungs: Seq<(Seq<char>, BlockId)>,
    last: BlockId,
    inputs: Map<Seq<char>, bool>,
) -> Option<BlockId>
    decreases rungs.len(),
{
    if rungs.len() == 0 {
        Some(last)
    } else {
        match inputs.get(rungs[0].0) {
            Some(true) => Some(rungs[0].1),
            Some(false) => selected(rungs.skip(1), last, inputs),
            None => None,
        }
    }
}

proof fn selected_or_last(
    rungs: Seq<(Seq<char>, BlockId)>,
    x: BlockId,
    y: BlockId,
    inputs: Map<Seq<char>, bool>,
)
    ensures
        selected(rungs, x, inputs) == Some(x) || selected(rungs, x, inputs) == selected(
            rungs,
            y,
            inputs,
        ),
    decreases rungs.len(),
{
    if rungs.len() > 0 {
        selected_or_last(rungs.skip(1), x, y, inputs);
    }
}

proof fn last_rung_unfolds(
    rungs: Seq<(Seq<char>, BlockId)>,
    last: BlockId,
    inputs: Map<Seq<char>, bool>,
)
    requires
        rungs.len() > 0,
        inputs.contains_key(rungs.last().0),
    ensures
        selected(rungs, last, inputs) == selected(
            rungs.drop_last(),
            if inputs[rungs.last().0] {
                rungs.last().1
            } else {
                last
            },
            inputs,
        ),
    decreases rungs.len(),
{
    if rungs.len() == 1 {
        assert(rungs.skip(1) =~= seq![]);
        assert(rungs.drop_last() =~= seq![]);
        assert(rungs[0] == rungs.last());
        assert(selected(seq![], last, inputs) == Some(last));
    } else {
        let rest = rungs.skip(1);
        last_rung_unfolds(rest, last, inputs);
        assert(rest.last() == rungs.last());
        assert(rest.drop_last() =~= rungs.drop_last().skip(1));
        assert(rungs.drop_last()[0] == rungs[0]);
    }
}

/// The rungs of a `match` select the block that its switch goes to.
proof fn rungs_select_arm(
    f: FunctionView,
    name: Seq<char>,
    targets: Seq<(u128, BlockId)>,
    otherwise: BlockId,
    value: u128,
    inputs: Map<Seq<char>, bool>,
)
    requires
        tells_values(f, name, targets, value, inputs),
        !unreachable_block(f, arm_for(targets, otherwise, value)),
    ensures
        selected(match_rungs(f, name, targets), otherwise, inputs) == Some(
            arm_for(targets, otherwise, value),
        ),
        forall|k: int|
            0 <= k < match_rungs(f, name, targets).len() ==> inputs.contains_key(
                (#[trigger] match_rungs(f, name, targets)[k]).0,
            ),
    decreases targets.len(),
{
    let rungs = match_rungs(f, name, targets);
    if targets.len() > 0 {
        let fewer = targets.drop_last();
        let (v, t) = targets.last();
        assert(targets[targets.len() - 1] == (v, t));
        assert forall|i: int|
            0 <= i < fewer.len() && !unreachable_block(f, (#[trigger] fewer[i]).1) implies inputs.get(
            name + " == "@ + decimal(fewer[i].0 as nat),
        ) == Some(value == fewer[i].0) by {
            assert(fewer[i] == targets[i]);
        }
        last_arm_unfolds(targets, otherwise, value);
        if unreachable_block(f, t) {
            arm_or_last(fewer, t, otherwise, value);
            rungs_select_arm(f, name, fewer, otherwise, value, inputs);
        } else {
            let here = if v == value {
                t
            } else {
                otherwise
            };
            rungs_select_arm(f, name, fewer, here, value, inputs);
            assert(rungs.drop_last() =~= match_rungs(f, name, fewer));
            last_rung_unfolds(rungs, otherwise, inputs);
        }
    }
}

/// A ladder of tests selects the block that the switch it stands for goes to.
proof fn ladder_selects_arm(
    f: FunctionView,
    b: BlockView,
    value: u128,
    inputs: Map<Seq<char>, bool>,
)
    requires
        ladder_shape(f, b) is Some,
        tells_switch(f, b, value, inputs),
    ensures
        ({
            let ladder = ladder_shape(f, b)->0;
            b.terminator matches TerminatorView::SwitchInt { targets, otherwise, .. } && selected(
                ladder.rungs,
                ladder.last,
                inputs,
            ) == Some(arm_for(targets, otherwise, value))
        }),
{
    if let TerminatorView::SwitchInt { discr, targets, otherwise, .. } = b.terminator {
        let ladder = ladder_shape(f, b)->0;
        if type_of(f, discr) == Some("bool"@) && targets.len() == 1 && targets[0].0 == 0 {
            assert(targets.skip(1) =~= seq![]);
            assert(arm_for(seq![], otherwise, value) == otherwise);
            assert(ladder.rungs.skip(1) =~= seq![]);
            assert(selected(seq![], ladder.last, inputs) == Some(ladder.last));
        } else {
            let rungs = match_rungs(f, shown_local(f, discr), targets);
            rungs_select_arm(f, shown_local(f, discr), targets, otherwise, value, inputs);
            if unreachable_block(f, otherwise) {
                assert(inputs.contains_key(rungs[rungs.len() - 1].0));
                last_rung_unfolds(rungs, otherwise, inputs);
                selected_or_last(rungs.drop_last(), otherwise, rungs.last().1, inputs);
            }
        }
    }
}

/// The tree of a ladder has the value of the tree of the selected block.
proof fn climb_has_selected_value(
    f: FunctionView,
    through: bool,
    rungs: Seq<(Seq<char>, BlockId)>,
    last: BlockId,
    inputs: Map<Seq<char>, bool>,
    depth: nat,
)
    requires
        climb(f, through, rungs, last, depth) is Some,
    ensures
        selected(rungs, last, inputs) matches Some(t) ==> walk(f, through, t, depth) is Some
            && value_of(climb(f, through, rungs, last, depth)->0, inputs) == value_of(
            walk(f, through, t, depth)->0,
            inputs,
        ),
    decreases rungs.len(),
{
    reveal_with_fuel(climb, 2);
    if rungs.len() > 0 {
        climb_has_selected_value(f, through, rungs.skip(1), last, inputs, depth);
        let yes = walk(f, through, rungs[0].1, depth)->0;
        let no = climb(f, through, rungs.skip(1), last, depth)->0;
        assert(climb(f, through, rungs, last, depth) == Some(ite(rungs[0].0, yes, no)));
    }
}

// ---------------------------------------------------------------------------
// Decisions foretell runs
// ---------------------------------------------------------------------------

/// The recovered tree foretells every run: where an assignment of the
/// conditions tells what the blocks of the run do, the value of the tree
/// under it is the outcome of the run.
pub proof fn tree_foretells_execution(
    f: FunctionView,
    through: bool,
    id: BlockId,
    read: spec_fn(BlockId) -> u128,
    inputs: Map<Seq<char>, bool>,
    depth: nat,
)
    requires
        walk(f, through, id, depth) is Some,
        tells(f, through, id, read, inputs, depth),
    ensures
        value_of(walk(f, through, id, depth)->0, inputs) == execution(
            f,
            through,
            id,
            read,
            inputs,
            depth,
        ),
    decreases depth,
{
    reveal_with_fuel(walk, 2);
    let next = (depth - 1) as nat;
    let b = block_with_id(f.blocks, id)->0;
    assert(tells_block(f, id, read, inputs));
    match continue_arm(f, b) {
        Some(arm) => {
            assert(walk(f, through, id, depth) == walk(f, through, arm, next));
            assert(course(f, through, id, read, inputs) == Course::Goes(arm));
            tree_foretells_execution(f, through, arm, read, inputs, next);
        },
        None => match block_leaf(f, b) {
            Some((dst, value)) => {
                leaves_are_simple(f, switched_local(b), b.statements);
                match downstream_branch(f, through, b, dst) {
                    Some((yes, no)) => {
                        assert(walk(f, through, id, depth) == follow(f, through, value, yes, no, next));
                        reveal_with_fuel(follow, 2);
                        match value {
                            NodeView::Const { value } => {
                                let t = if value {
                                    yes
                                } else {
                                    no
                                };
                                tree_foretells_execution(f, through, t, read, inputs, next);
                            },
                            NodeView::Condition { name } => {
                                let y = walk(f, through, yes, next)->0;
                                let n = walk(f, through, no, next)->0;
                                assert(walk(f, through, id, depth) == Some(ite(name, y, n)));
                                match inputs.get(name) {
                                    Some(true) => {
                                        tree_foretells_execution(f, through, yes, read, inputs, next);
                                    },
                                    Some(false) => {
                                        tree_foretells_execution(f, through, no, read, inputs, next);
                                    },
                                    None => {},
                                }
                            },
                            NodeView::Ite { .. } => {},
                        }
                    },
                    None => {
                        assert(walk(f, through, id, depth) == Some(value));
                    },
                }
            },
            None => {
                if if_let_node(f, through, b, next) is Some {
                    reveal_with_fuel(if_let_node, 2);
                    let (cond, matched, other) = if_let_shape(f, b)->0;
                    let y = walk(f, through, matched, next)->0;
                    let n = walk(f, through, other, next)->0;
                    assert(walk(f, through, id, depth) == Some(ite(cond, y, n)));
                    let t = taken(f, id, read)->0;
                    if let TerminatorView::SwitchInt { targets, otherwise, .. } = b.terminator {
                        let arms = reachable_arms(f, targets, otherwise);
                        taken_arm_is_listed(f, seq![], targets, otherwise, read(id));
                        assert(arms.contains(t));
                        assert(t == arms[0] || t == arms[1]);
                        assert(t == matched || t == other);
                    }
                    tree_foretells_execution(f, through, t, read, inputs, next);
                } else {
                    let ladder = ladder_shape(f, b)->0;
                    assert(walk(f, through, id, depth) == climb(
                        f,
                        through,
                        ladder.rungs,
                        ladder.last,
                        next,
                    ));
                    ladder_selects_arm(f, b, read(id), inputs);
                    climb_has_selected_value(f, through, ladder.rungs, ladder.last, inputs, next);
                    let t = taken(f, id, read)->0;
                    tree_foretells_execution(f, through, t, read, inputs, next);
                }
            },
        },
    }
}

/// The decision of a function foretells every run from its first block:
/// where an assignment of the conditions tells what the blocks of the run do,
/// the value of the decision under it is the outcome. Intermediate values are
/// followed through, where that gives a decision.
pub proof fn decision_foretells_execution(
    f: FunctionView,
    read: spec_fn(BlockId) -> u128,
    inputs: Map<Seq<char>, bool>,
)
    requires
        decision_of(f) is Some,
        ({
            let through = walk(f, true, f.blocks[0].id, f.blocks.len()) is Some;
            tells(f, through, f.blocks[0].id, read, inputs, f.blocks.len())
        }),
    ensures
        ({
            let through = walk(f, true, f.blocks[0].id, f.blocks.len()) is Some;
            value_of(decision_of(f)->0, inputs) == execution(
                f,
                through,
                f.blocks[0].id,
                read,
                inputs,
                f.blocks.len(),
            )
        }),
{
    let through = walk(f, true, f.blocks[0].id, f.blocks.len()) is Some;
    assert(decision_of(f) == decision_within(f, f.blocks.len()));
    tree_foretells_execution(f, through, f.blocks[0].id, read, inputs, f.blocks.len());
}

} // verus!
