//! Decisions recovered from MIR.
//!
//! The short-circuit expressions, `if let`, literal `match` and `?` of a
//! function compile to a graph of `switchInt` blocks. The walk here turns
//! that graph into one tree in If-Then-Else form: each branching block is a
//! [`Node::Ite`], each block that sets a value a leaf. `a && b` is
//! `Ite { a, b, false }`, `a || b` is `Ite { a, true, b }`. A value that an
//! arm only sets for a branch further down, as in `(match n { 0 => true, _ =>
//! false }) && b`, is followed into that branch, unless what it decides there
//! is no boolean decision.
//!
//! A block whose shape is not recognised yields no decision, and neither
//! does a graph that runs in circles.
use crate::mir::{
    ArgView, BlockId, BlockView, CompareOp, FunctionView, LocalId, LocalView, Mir, MirBlock,
    MirFunction, MirStatement, MirTerminator, Operand, OperandView, StatementView, TerminatorView,
};
use crate::mir::names::name_of;
use crate::ordered::NameMap;
use crate::text::{chars_of, decimal, ends_in, ends_with, push_decimal, same_text};
use vstd::prelude::*;
use vstd::string::*;

pub mod execution;
pub mod laws;

verus! {

/// The decisions recovered from a single translation unit's MIR.
#[derive(Debug, Clone)]
pub struct DecisionTree {
    /// One [`Node`] per logical decision recovered from the MIR.
    pub decisions: Vec<Node>,
}

/// The model of a [`DecisionTree`].
pub struct DecisionTreeView {
    pub decisions: Seq<NodeView>,
}

impl DeepView for DecisionTree {
    type V = DecisionTreeView;

    open spec fn deep_view(&self) -> DecisionTreeView {
        DecisionTreeView { decisions: self.decisions.deep_view() }
    }
}

impl Default for DecisionTree {
    fn default() -> (r: Self)
        ensures
            r.decisions@ == Seq::<Node>::empty(),
    {
        DecisionTree { decisions: Vec::new() }
    }
}

impl DecisionTree {
    /// A copy of the tree.
    pub fn duplicate(&self) -> (r: DecisionTree)
        ensures
            r.deep_view() == self.deep_view(),
    {
        let mut decisions: Vec<Node> = Vec::new();
        let mut i: usize = 0;
        while i < self.decisions.len()
            invariant
                i <= self.decisions@.len(),
                decisions@.len() == i,
                forall|k: int| 0 <= k < i ==> #[trigger] decisions@[k] == self.decisions@[k],
            decreases self.decisions@.len() - i,
        {
            decisions.push(self.decisions[i].duplicate());
            i += 1;
        }
        assert(decisions@ =~= self.decisions@);
        DecisionTree { decisions }
    }
}

/// A node in a [`DecisionTree`], in If-Then-Else form.
#[derive(Debug, PartialEq, Eq)]
#[non_exhaustive]
pub enum Node {
    /// A leaf: a single atomic boolean condition, named as it appeared in
    /// source.
    Condition {
        /// Source-level name of the condition.
        name: String,
    },
    /// A constant-value leaf (`const true` / `const false`).
    Const {
        /// Constant value.
        value: bool,
    },
    /// `if cond then then_branch else else_branch`.
    Ite {
        /// The condition being tested.
        cond: String,
        /// Evaluated when `cond` is true.
        then_branch: Box<Node>,
        /// Evaluated when `cond` is false.
        else_branch: Box<Node>,
    },
}

/// The model of a [`Node`].
pub enum NodeView {
    Condition { name: Seq<char> },
    Const { value: bool },
    Ite { cond: Seq<char>, then_branch: Box<NodeView>, else_branch: Box<NodeView> },
}

/// The model of a node.
pub open spec fn node_view(node: Node) -> NodeView
    decreases node,
{
    match node {
        Node::Condition { name } => NodeView::Condition { name: name@ },
        Node::Const { value } => NodeView::Const { value },
        Node::Ite { cond, then_branch, else_branch } => ite(
            cond@,
            node_view(*then_branch),
            node_view(*else_branch),
        ),
    }
}

/// `if cond then yes else no`.
pub open spec fn ite(cond: Seq<char>, yes: NodeView, no: NodeView) -> NodeView {
    NodeView::Ite { cond, then_branch: Box::new(yes), else_branch: Box::new(no) }
}

impl DeepView for Node {
    type V = NodeView;

    open spec fn deep_view(&self) -> NodeView {
        node_view(*self)
    }
}

impl Node {
    /// A copy of the node.
    pub fn duplicate(&self) -> (r: Node)
        ensures
            r == *self,
        decreases self,
    {
        match self {
            Node::Condition { name } => Node::Condition { name: name.clone() },
            Node::Const { value } => Node::Const { value: *value },
            Node::Ite { cond, then_branch, else_branch } => Node::Ite {
                cond: cond.clone(),
                then_branch: Box::new(then_branch.duplicate()),
                else_branch: Box::new(else_branch.duplicate()),
            },
        }
    }
}

impl Clone for Node {
    fn clone(&self) -> (r: Self)
        ensures
            r == *self,
    {
        self.duplicate()
    }
}

// ---------------------------------------------------------------------------
// Evaluation
// ---------------------------------------------------------------------------

/// The value of a decision under a partial assignment, if the path that the
/// assignment takes needs no condition it leaves out.
pub open spec fn value_of(node: NodeView, inputs: Map<Seq<char>, bool>) -> Option<bool>
    decreases node,
{
    match node {
        NodeView::Condition { name } => inputs.get(name),
        NodeView::Const { value } => Some(value),
        NodeView::Ite { cond, then_branch, else_branch } => match inputs.get(cond) {
            Some(true) => value_of(*then_branch, inputs),
            Some(false) => value_of(*else_branch, inputs),
            None => None,
        },
    }
}

/// Evaluates a [`Node`] under a partial condition assignment.
///
/// Returns `None` if the path taken under the assignment needs a condition
/// not present in `inputs`. A condition that was short-circuited in a test is
/// absent from the observation, and the path the test took does not need it
/// either.
pub fn evaluate_partial(node: &Node, inputs: &NameMap<bool>) -> (r: Option<bool>)
    ensures
        r == value_of(node.deep_view(), inputs@),
    decreases node,
{
    match node {
        Node::Condition { name } => match inputs.get(name.as_str()) {
            Some(v) => Some(*v),
            None => None,
        },
        Node::Const { value } => Some(*value),
        Node::Ite { cond, then_branch, else_branch } => match inputs.get(cond.as_str()) {
            Some(v) => if *v {
                evaluate_partial(then_branch, inputs)
            } else {
                evaluate_partial(else_branch, inputs)
            },
            None => None,
        },
    }
}

// ---------------------------------------------------------------------------
// Looking up
// ---------------------------------------------------------------------------

/// The first block with the given id.
pub open spec fn block_with_id(blocks: Seq<BlockView>, id: BlockId) -> Option<BlockView>
    decreases blocks.len(),
{
    if blocks.len() == 0 {
        None
    } else if blocks[0].id == id {
        Some(blocks[0])
    } else {
        block_with_id(blocks.skip(1), id)
    }
}

/// Finds the first block with the given id.
fn find_block(f: &MirFunction, id: BlockId) -> (r: Option<&MirBlock>)
    ensures
        r.deep_view() == block_with_id(f.deep_view().blocks, id),
{
    let ghost all = f.blocks.deep_view();
    let mut i: usize = 0;
    assert(all.skip(0) =~= all);
    while i < f.blocks.len()
        invariant
            i <= f.blocks@.len(),
            all == f.blocks.deep_view(),
            block_with_id(all, id) == block_with_id(all.skip(i as int), id),
        decreases f.blocks@.len() - i,
    {
        assert(all.skip(i as int)[0] == f.blocks@[i as int].deep_view());
        assert(all.skip(i as int).skip(1) =~= all.skip(i + 1));
        if f.blocks[i].id == id {
            return Some(&f.blocks[i]);
        }
        i += 1;
    }
    None
}

/// Whether a block is the compiler's mark for an impossible path.
pub open spec fn unreachable_block(f: FunctionView, id: BlockId) -> bool {
    match block_with_id(f.blocks, id) {
        Some(b) => b.terminator is Unreachable,
        None => false,
    }
}

/// Whether a block is the compiler's mark for an impossible path.
fn is_unreachable_block(id: BlockId, f: &MirFunction) -> (r: bool)
    ensures
        r == unreachable_block(f.deep_view(), id),
{
    match find_block(f, id) {
        Some(b) => match b.terminator {
            MirTerminator::Unreachable { .. } => true,
            _ => false,
        },
        None => false,
    }
}

/// The type of an argument.
pub open spec fn argument_type(args: Seq<ArgView>, local: LocalId) -> Option<Seq<char>>
    decreases args.len(),
{
    if args.len() == 0 {
        None
    } else if args[0].local == local {
        Some(args[0].ty)
    } else {
        argument_type(args.skip(1), local)
    }
}

/// The type of a declared local.
pub open spec fn declared_type(locals: Seq<LocalView>, local: LocalId) -> Option<Seq<char>>
    decreases locals.len(),
{
    if locals.len() == 0 {
        None
    } else if locals[0].local == local {
        Some(locals[0].ty)
    } else {
        declared_type(locals.skip(1), local)
    }
}

/// The type of a local, as the header or else a `let` declares it.
pub open spec fn type_of(f: FunctionView, local: LocalId) -> Option<Seq<char>> {
    match argument_type(f.args, local) {
        Some(ty) => Some(ty),
        None => declared_type(f.locals, local),
    }
}

/// Type of a local as declared in the function header or `let` declarations.
fn local_type(f: &MirFunction, local: LocalId) -> (r: Option<&String>)
    ensures
        r.deep_view() == type_of(f.deep_view(), local),
{
    let ghost args = f.args.deep_view();
    let mut i: usize = 0;
    assert(args.skip(0) =~= args);
    while i < f.args.len()
        invariant
            i <= f.args@.len(),
            args == f.args.deep_view(),
            argument_type(args, local) == argument_type(args.skip(i as int), local),
        decreases f.args@.len() - i,
    {
        assert(args.skip(i as int)[0] == f.args@[i as int].deep_view());
        assert(args.skip(i as int).skip(1) =~= args.skip(i + 1));
        if f.args[i].local == local {
            return Some(&f.args[i].ty);
        }
        i += 1;
    }
    let ghost locals = f.locals.deep_view();
    let mut k: usize = 0;
    assert(locals.skip(0) =~= locals);
    while k < f.locals.len()
        invariant
            k <= f.locals@.len(),
            locals == f.locals.deep_view(),
            argument_type(f.deep_view().args, local) is None,
            declared_type(locals, local) == declared_type(locals.skip(k as int), local),
        decreases f.locals@.len() - k,
    {
        assert(locals.skip(k as int)[0] == f.locals@[k as int].deep_view());
        assert(locals.skip(k as int).skip(1) =~= locals.skip(k + 1));
        if f.locals[k].local == local {
            return Some(&f.locals[k].ty);
        }
        k += 1;
    }
    None
}

/// The source name of a local, or `_<N>`.
pub open spec fn shown_local(f: FunctionView, local: LocalId) -> Seq<char> {
    if f.debug_names.contains_key(local) {
        f.debug_names[local]
    } else {
        "_"@ + decimal(local as nat)
    }
}

/// The source name of a local, or `_<N>`.
fn local_display(f: &MirFunction, local: LocalId) -> (r: String)
    ensures
        r@ == shown_local(f.deep_view(), local),
{
    match name_of(&f.debug_names, local) {
        Some(name) => name,
        None => {
            let mut out = String::new();
            out.append("_");
            push_decimal(&mut out, local as u128);
            assert(out@ =~= "_"@ + decimal(local as nat));
            out
        },
    }
}

/// A local by its name, a constant without its type suffix.
pub open spec fn shown_operand(f: FunctionView, operand: OperandView) -> Seq<char> {
    match operand {
        OperandView::Copy(id) => shown_local(f, id),
        OperandView::Move(id) => shown_local(f, id),
        OperandView::Const(_) => operand.display_value(),
    }
}

/// Renders an operand.
fn operand_display(op: &Operand, f: &MirFunction) -> (r: String)
    ensures
        r@ == shown_operand(f.deep_view(), op.deep_view()),
{
    match op {
        Operand::Copy(id) => local_display(f, *id),
        Operand::Move(id) => local_display(f, *id),
        Operand::Const(_) => op.const_display_value().to_owned(),
    }
}

/// The name of a comparison, such as `speed > 50`.
pub open spec fn comparison_name(
    f: FunctionView,
    op: CompareOp,
    lhs: OperandView,
    rhs: OperandView,
) -> Seq<char> {
    shown_operand(f, lhs) + " "@ + op.spelling() + " "@ + shown_operand(f, rhs)
}

/// Names a comparison.
fn compare_condition_name(op: CompareOp, lhs: &Operand, rhs: &Operand, f: &MirFunction) -> (r:
    String)
    ensures
        r@ == comparison_name(f.deep_view(), op, lhs.deep_view(), rhs.deep_view()),
{
    let mut out = operand_display(lhs, f);
    out.append(" ");
    out.append(op.as_source_str());
    out.append(" ");
    out.append(operand_display(rhs, f).as_str());
    out
}

// ---------------------------------------------------------------------------
// Leaves
// ---------------------------------------------------------------------------

/// The local that a block branches on.
pub open spec fn switched_local(b: BlockView) -> Option<LocalId> {
    match b.terminator {
        TerminatorView::SwitchInt { discr, .. } => Some(discr),
        _ => None,
    }
}

/// The value that a statement sets, with its destination: a constant, a named
/// copy or a comparison, unless the destination only feeds the branch on
/// `switched`.
pub open spec fn leaf(f: FunctionView, switched: Option<LocalId>, s: StatementView) -> Option<
    (LocalId, NodeView),
> {
    match s {
        StatementView::AssignConstBool { dst, value, .. } => if switched == Some(dst) {
            None
        } else {
            Some((dst, NodeView::Const { value }))
        },
        StatementView::AssignCopy { dst, src, .. } => if switched == Some(dst)
            || !f.debug_names.contains_key(src) {
            None
        } else {
            Some((dst, NodeView::Condition { name: f.debug_names[src] }))
        },
        StatementView::AssignBinaryCompare { dst, op, lhs, rhs, .. } => if switched == Some(dst) {
            None
        } else {
            Some((dst, NodeView::Condition { name: comparison_name(f, op, lhs, rhs) }))
        },
        _ => None,
    }
}

/// The first value that statements set.
pub open spec fn first_leaf(
    f: FunctionView,
    switched: Option<LocalId>,
    statements: Seq<StatementView>,
) -> Option<(LocalId, NodeView)>
    decreases statements.len(),
{
    if statements.len() == 0 {
        None
    } else {
        match leaf(f, switched, statements[0]) {
            Some(found) => Some(found),
            None => first_leaf(f, switched, statements.skip(1)),
        }
    }
}

/// The first value that a block sets.
pub open spec fn block_leaf(f: FunctionView, b: BlockView) -> Option<(LocalId, NodeView)> {
    first_leaf(f, switched_local(b), b.statements)
}

/// Extracts the value that a block's statements set, the first in source
/// order, with its destination.
fn extract_terminal_value(block: &MirBlock, f: &MirFunction) -> (r: Option<(LocalId, Node)>)
    ensures
        r.deep_view() == block_leaf(f.deep_view(), block.deep_view()),
{
    let switched: Option<LocalId> = match &block.terminator {
        MirTerminator::SwitchInt { discr, .. } => Some(*discr),
        _ => None,
    };
    let ghost all = block.statements.deep_view();
    let mut i: usize = 0;
    assert(all.skip(0) =~= all);
    while i < block.statements.len()
        invariant
            i <= block.statements@.len(),
            all == block.statements.deep_view(),
            switched == switched_local(block.deep_view()),
            first_leaf(f.deep_view(), switched, all) == first_leaf(
                f.deep_view(),
                switched,
                all.skip(i as int),
            ),
        decreases block.statements@.len() - i,
    {
        assert(all.skip(i as int)[0] == block.statements@[i as int].deep_view());
        assert(all.skip(i as int).skip(1) =~= all.skip(i + 1));
        match &block.statements[i] {
            MirStatement::AssignConstBool { dst, value, .. } => {
                if switched != Some(*dst) {
                    return Some((*dst, Node::Const { value: *value }));
                }
            },
            MirStatement::AssignCopy { dst, src, .. } => {
                if switched != Some(*dst) {
                    if let Some(name) = name_of(&f.debug_names, *src) {
                        return Some((*dst, Node::Condition { name }));
                    }
                }
            },
            MirStatement::AssignBinaryCompare { dst, op, lhs, rhs, .. } => {
                if switched != Some(*dst) {
                    let name = compare_condition_name(*op, lhs, rhs, f);
                    return Some((*dst, Node::Condition { name }));
                }
            },
            _ => {},
        }
        i += 1;
    }
    None
}

/// The branch that an intermediate value decides, if such values are followed
/// `through`: the block jumps to one that sets no value of its own and
/// branches on `dst` as a `bool`. The return place `_0` holds no intermediate
/// value. Given are the blocks reached when the value is true and when it is
/// false.
pub open spec fn downstream_branch(
    f: FunctionView,
    through: bool,
    b: BlockView,
    dst: LocalId,
) -> Option<(BlockId, BlockId)> {
    match b.terminator {
        TerminatorView::Goto { target, .. } => match block_with_id(f.blocks, target) {
            Some(next) => match next.terminator {
                TerminatorView::SwitchInt { discr, targets, otherwise, .. } => if through && dst != 0
                    && discr == dst && targets.len() == 1 && targets[0].0 == 0 && block_leaf(f, next) is None {
                    Some((otherwise, targets[0].1))
                } else {
                    None
                },
                _ => None,
            },
            None => None,
        },
        _ => None,
    }
}

/// Finds the branch that an intermediate value decides.
fn find_downstream_branch(
    block: &MirBlock,
    dst: LocalId,
    f: &MirFunction,
    through: bool,
) -> (r: Option<(BlockId, BlockId)>)
    ensures
        r == downstream_branch(f.deep_view(), through, block.deep_view(), dst),
{
    match &block.terminator {
        MirTerminator::Goto { target, .. } => match find_block(f, *target) {
            Some(next) => match &next.terminator {
                MirTerminator::SwitchInt { discr, targets, otherwise, .. } => {
                    if !through || dst == 0 || *discr != dst || targets.len() != 1 || targets[0].0
                        != 0 {
                        return None;
                    }
                    match extract_terminal_value(next, f) {
                        Some(_) => None,
                        None => Some((*otherwise, targets[0].1)),
                    }
                },
                _ => None,
            },
            None => None,
        },
        _ => None,
    }
}

/// The name of the first comparison that writes to a local.
pub open spec fn compared_into(
    f: FunctionView,
    statements: Seq<StatementView>,
    local: LocalId,
) -> Option<Seq<char>>
    decreases statements.len(),
{
    if statements.len() == 0 {
        None
    } else {
        match statements[0] {
            StatementView::AssignBinaryCompare { dst, op, lhs, rhs, .. } => if dst == local {
                Some(comparison_name(f, op, lhs, rhs))
            } else {
                compared_into(f, statements.skip(1), local)
            },
            _ => compared_into(f, statements.skip(1), local),
        }
    }
}

/// Names the first comparison in a block that writes to `discr`.
fn synthesize_compare_name(block: &MirBlock, discr: LocalId, f: &MirFunction) -> (r: Option<
    String,
>)
    ensures
        r.deep_view() == compared_into(f.deep_view(), block.deep_view().statements, discr),
{
    let ghost all = block.statements.deep_view();
    let mut i: usize = 0;
    assert(all.skip(0) =~= all);
    while i < block.statements.len()
        invariant
            i <= block.statements@.len(),
            all == block.statements.deep_view(),
            compared_into(f.deep_view(), all, discr) == compared_into(
                f.deep_view(),
                all.skip(i as int),
                discr,
            ),
        decreases block.statements@.len() - i,
    {
        assert(all.skip(i as int)[0] == block.statements@[i as int].deep_view());
        assert(all.skip(i as int).skip(1) =~= all.skip(i + 1));
        if let MirStatement::AssignBinaryCompare { dst, op, lhs, rhs, .. } = &block.statements[i] {
            if *dst == discr {
                return Some(compare_condition_name(*op, lhs, rhs, f));
            }
        }
        i += 1;
    }
    None
}

// ---------------------------------------------------------------------------
// Arms
// ---------------------------------------------------------------------------

/// The arms with one more target, unless it is unreachable or there.
pub open spec fn with_arm(f: FunctionView, arms: Seq<BlockId>, target: BlockId) -> Seq<BlockId> {
    if unreachable_block(f, target) || arms.contains(target) {
        arms
    } else {
        arms.push(target)
    }
}

/// The arms with the targets of a switch, in order.
pub open spec fn with_arms(
    f: FunctionView,
    arms: Seq<BlockId>,
    targets: Seq<(u128, BlockId)>,
) -> Seq<BlockId>
    decreases targets.len(),
{
    if targets.len() == 0 {
        arms
    } else {
        with_arms(f, with_arm(f, arms, targets[0].1), targets.skip(1))
    }
}

/// The distinct reachable targets of a switch: the explicit ones in order,
/// then `otherwise`.
pub open spec fn reachable_arms(
    f: FunctionView,
    targets: Seq<(u128, BlockId)>,
    otherwise: BlockId,
) -> Seq<BlockId> {
    with_arm(f, with_arms(f, seq![], targets), otherwise)
}

/// Adds a target to the arms, unless it is unreachable or there.
fn add_arm(arms: &mut Vec<BlockId>, target: BlockId, f: &MirFunction)
    ensures
        final(arms)@ == with_arm(f.deep_view(), old(arms)@, target),
{
    if is_unreachable_block(target, f) {
        return;
    }
    let mut i: usize = 0;
    while i < arms.len()
        invariant
            i <= arms@.len(),
            arms@ == old(arms)@,
            forall|k: int| 0 <= k < i ==> arms@[k] != target,
        decreases arms@.len() - i,
    {
        if arms[i] == target {
            return;
        }
        i += 1;
    }
    arms.push(target);
}

/// Collects the distinct reachable targets of a switch.
fn collect_arms(targets: &Vec<(u128, BlockId)>, otherwise: BlockId, f: &MirFunction) -> (r: Vec<
    BlockId,
>)
    ensures
        r@ == reachable_arms(f.deep_view(), targets@, otherwise),
{
    let mut arms: Vec<BlockId> = Vec::new();
    let mut i: usize = 0;
    assert(targets@.skip(0) =~= targets@);
    assert(arms@ =~= seq![]);
    while i < targets.len()
        invariant
            i <= targets@.len(),
            with_arms(f.deep_view(), seq![], targets@) == with_arms(
                f.deep_view(),
                arms@,
                targets@.skip(i as int),
            ),
        decreases targets@.len() - i,
    {
        assert(targets@.skip(i as int).skip(1) =~= targets@.skip(i + 1));
        add_arm(&mut arms, targets[i].1, f);
        i += 1;
    }
    assert(targets@.skip(i as int) =~= seq![]);
    add_arm(&mut arms, otherwise, f);
    arms
}

/// The first discriminant read: its destination and its source.
pub open spec fn discriminant_read(statements: Seq<StatementView>) -> Option<(LocalId, LocalId)>
    decreases statements.len(),
{
    if statements.len() == 0 {
        None
    } else {
        match statements[0] {
            StatementView::AssignDiscriminant { dst, src, .. } => Some((dst, src)),
            _ => discriminant_read(statements.skip(1)),
        }
    }
}

/// Finds the first discriminant read of a block.
fn find_discriminant_read(block: &MirBlock) -> (r: Option<(LocalId, LocalId)>)
    ensures
        r == discriminant_read(block.deep_view().statements),
{
    let ghost all = block.statements.deep_view();
    let mut i: usize = 0;
    assert(all.skip(0) =~= all);
    while i < block.statements.len()
        invariant
            i <= block.statements@.len(),
            all == block.statements.deep_view(),
            discriminant_read(all) == discriminant_read(all.skip(i as int)),
        decreases block.statements@.len() - i,
    {
        assert(all.skip(i as int)[0] == block.statements@[i as int].deep_view());
        assert(all.skip(i as int).skip(1) =~= all.skip(i + 1));
        if let MirStatement::AssignDiscriminant { dst, src, .. } = &block.statements[i] {
            return Some((*dst, *src));
        }
        i += 1;
    }
    None
}

/// The destination of the first read of the discriminant of `src`.
pub open spec fn tag_of(statements: Seq<StatementView>, src: LocalId) -> Option<LocalId>
    decreases statements.len(),
{
    if statements.len() == 0 {
        None
    } else {
        match statements[0] {
            StatementView::AssignDiscriminant { dst, src: from, .. } => if from == src {
                Some(dst)
            } else {
                tag_of(statements.skip(1), src)
            },
            _ => tag_of(statements.skip(1), src),
        }
    }
}

/// Finds the first read of the discriminant of `local`.
fn find_tag_of(block: &MirBlock, local: LocalId) -> (r: Option<LocalId>)
    ensures
        r == tag_of(block.deep_view().statements, local),
{
    let ghost all = block.statements.deep_view();
    let mut i: usize = 0;
    assert(all.skip(0) =~= all);
    while i < block.statements.len()
        invariant
            i <= block.statements@.len(),
            all == block.statements.deep_view(),
            tag_of(all, local) == tag_of(all.skip(i as int), local),
        decreases block.statements@.len() - i,
    {
        assert(all.skip(i as int)[0] == block.statements@[i as int].deep_view());
        assert(all.skip(i as int).skip(1) =~= all.skip(i + 1));
        if let MirStatement::AssignDiscriminant { dst, src, .. } = &block.statements[i] {
            if *src == local {
                return Some(*dst);
            }
        }
        i += 1;
    }
    None
}

/// Whether some statement reads a discriminant into `local`.
pub open spec fn holds_discriminant(statements: Seq<StatementView>, local: LocalId) -> bool {
    exists|i: int|
        0 <= i < statements.len() && (#[trigger] statements[i]) is AssignDiscriminant
            && statements[i]->AssignDiscriminant_dst == local
}

/// Whether some statement of a block reads a discriminant into `local`.
fn reads_discriminant_into(block: &MirBlock, local: LocalId) -> (r: bool)
    ensures
        r == holds_discriminant(block.deep_view().statements, local),
{
    let ghost all = block.statements.deep_view();
    let mut i: usize = 0;
    while i < block.statements.len()
        invariant
            i <= block.statements@.len(),
            all == block.statements.deep_view(),
            forall|k: int|
                0 <= k < i && (#[trigger] all[k]) is AssignDiscriminant
                    ==> all[k]->AssignDiscriminant_dst != local,
        decreases block.statements@.len() - i,
    {
        assert(all[i as int] == block.statements@[i as int].deep_view());
        if let MirStatement::AssignDiscriminant { dst, .. } = &block.statements[i] {
            if *dst == local {
                return true;
            }
        }
        i += 1;
    }
    false
}

/// The variant of the first downcast of a local.
pub open spec fn downcast_variant(statements: Seq<StatementView>, scrutinee: LocalId) -> Option<
    Seq<char>,
>
    decreases statements.len(),
{
    if statements.len() == 0 {
        None
    } else {
        match statements[0] {
            StatementView::AssignDowncast { src, variant, .. } => if src == scrutinee {
                Some(variant)
            } else {
                downcast_variant(statements.skip(1), scrutinee)
            },
            _ => downcast_variant(statements.skip(1), scrutinee),
        }
    }
}

/// The variant of the first downcast of a local in a block, by the block's
/// id.
pub open spec fn arm_variant(f: FunctionView, id: BlockId, scrutinee: LocalId) -> Option<Seq<char>> {
    match block_with_id(f.blocks, id) {
        Some(b) => downcast_variant(b.statements, scrutinee),
        None => None,
    }
}

/// Finds the variant of the first downcast of a local in a block.
fn downcast_variant_for(block: &MirBlock, scrutinee: LocalId) -> (r: Option<String>)
    ensures
        r.deep_view() == downcast_variant(block.deep_view().statements, scrutinee),
{
    let ghost all = block.statements.deep_view();
    let mut i: usize = 0;
    assert(all.skip(0) =~= all);
    while i < block.statements.len()
        invariant
            i <= block.statements@.len(),
            all == block.statements.deep_view(),
            downcast_variant(all, scrutinee) == downcast_variant(all.skip(i as int), scrutinee),
        decreases block.statements@.len() - i,
    {
        assert(all.skip(i as int)[0] == block.statements@[i as int].deep_view());
        assert(all.skip(i as int).skip(1) =~= all.skip(i + 1));
        if let MirStatement::AssignDowncast { src, variant, .. } = &block.statements[i] {
            if *src == scrutinee {
                return Some(variant.clone());
            }
        }
        i += 1;
    }
    None
}

/// Finds the variant of the first downcast of a local in a block, by the
/// block's id.
fn find_arm_variant(f: &MirFunction, id: BlockId, scrutinee: LocalId) -> (r: Option<String>)
    ensures
        r.deep_view() == arm_variant(f.deep_view(), id, scrutinee),
{
    match find_block(f, id) {
        Some(b) => downcast_variant_for(b, scrutinee),
        None => None,
    }
}

/// Whether a block reads the `Continue` payload of a local.
pub open spec fn reads_continue(f: FunctionView, id: BlockId, local: LocalId) -> bool {
    match block_with_id(f.blocks, id) {
        Some(b) => exists|i: int|
            0 <= i < b.statements.len() && (#[trigger] b.statements[i]) is AssignDowncast
                && b.statements[i]->AssignDowncast_src == local
                && b.statements[i]->AssignDowncast_variant == "Continue"@,
        None => false,
    }
}

/// Whether a block reads the `Continue` payload of a local.
fn is_continue_arm(f: &MirFunction, id: BlockId, local: LocalId) -> (r: bool)
    ensures
        r == reads_continue(f.deep_view(), id, local),
{
    let block = match find_block(f, id) {
        Some(b) => b,
        None => return false,
    };
    let ghost all = block.statements.deep_view();
    let mut i: usize = 0;
    while i < block.statements.len()
        invariant
            i <= block.statements@.len(),
            all == block.statements.deep_view(),
            block_with_id(f.deep_view().blocks, id) == Some(block.deep_view()),
            forall|k: int|
                0 <= k < i && (#[trigger] all[k]) is AssignDowncast
                    && all[k]->AssignDowncast_src == local ==> all[k]->AssignDowncast_variant
                    != "Continue"@,
        decreases block.statements@.len() - i,
    {
        assert(all[i as int] == block.statements@[i as int].deep_view());
        if let MirStatement::AssignDowncast { src, variant, .. } = &block.statements[i] {
            if *src == local && same_text(variant.as_str(), "Continue") {
                return true;
            }
        }
        i += 1;
    }
    false
}

// ---------------------------------------------------------------------------
// Shapes
// ---------------------------------------------------------------------------

/// Whether a function expression is `Try::branch`, which `?` calls.
pub open spec fn is_try_branch(func: Seq<char>) -> bool {
    ends_in(func, "Try>::branch"@) || ends_in(func, "Try::branch"@)
}

/// The arm that goes on after a `?`.
///
/// A block that ends in a call of `Try::branch` whose result is `d` leads to
/// a block that branches on the discriminant of `d`, with two reachable arms; the one that
/// reads the `Continue` payload of `d` is the rest of the user's code, the
/// other the early return.
pub open spec fn continue_arm(f: FunctionView, b: BlockView) -> Option<BlockId> {
    match b.terminator {
        TerminatorView::Call { dst, func_text, target, .. } => match block_with_id(
            f.blocks,
            target,
        ) {
            Some(branch) => match (tag_of(branch.statements, dst), branch.terminator) {
                (Some(tag), TerminatorView::SwitchInt { discr, targets, otherwise, .. }) => {
                    let arms = reachable_arms(f, targets, otherwise);
                    if !is_try_branch(func_text) || discr != tag || arms.len() != 2 {
                        None
                    } else if reads_continue(f, arms[0], dst) {
                        Some(arms[0])
                    } else if reads_continue(f, arms[1], dst) {
                        Some(arms[1])
                    } else {
                        None
                    }
                },
                _ => None,
            },
            None => None,
        },
        _ => None,
    }
}

/// Recognises a `?` operator's prefix and returns the arm that goes on.
fn try_match_try_prefix(block: &MirBlock, f: &MirFunction) -> (r: Option<BlockId>)
    ensures
        r == continue_arm(f.deep_view(), block.deep_view()),
{
    match &block.terminator {
        MirTerminator::Call { dst, func_text, target, .. } => {
            let func = chars_of(func_text.as_str());
            if !ends_with(func.as_slice(), "Try>::branch") && !ends_with(
                func.as_slice(),
                "Try::branch",
            ) {
                return None;
            }
            let branch = match find_block(f, *target) {
                Some(b) => b,
                None => return None,
            };
            let tag: LocalId = match find_tag_of(branch, *dst) {
                Some(t) => t,
                None => return None,
            };
            match &branch.terminator {
                MirTerminator::SwitchInt { discr, targets, otherwise, .. } => {
                    let arms = collect_arms(targets, *otherwise, f);
                    if *discr != tag || arms.len() != 2 {
                        None
                    } else if is_continue_arm(f, arms[0], *dst) {
                        Some(arms[0])
                    } else if is_continue_arm(f, arms[1], *dst) {
                        Some(arms[1])
                    } else {
                        None
                    }
                },
                _ => None,
            }
        },
        _ => None,
    }
}

/// An `if let`: the condition's name, the matched arm and the other one.
///
/// The block reads the discriminant of a scrutinee and branches on it, with
/// two reachable arms, of which one begins by downcasting the scrutinee. The
/// condition is `<scrutinee> is <Variant>`.
pub open spec fn if_let_shape(f: FunctionView, b: BlockView) -> Option<
    (Seq<char>, BlockId, BlockId),
> {
    match (discriminant_read(b.statements), b.terminator) {
        (
            Some((tag, scrutinee)),
            TerminatorView::SwitchInt { discr, targets, otherwise, .. },
        ) => {
            let arms = reachable_arms(f, targets, otherwise);
            if discr != tag || arms.len() != 2 {
                None
            } else {
                match (arm_variant(f, arms[0], scrutinee), arm_variant(f, arms[1], scrutinee)) {
                    (Some(variant), _) => Some(
                        (shown_local(f, scrutinee) + " is "@ + variant, arms[0], arms[1]),
                    ),
                    (None, Some(variant)) => Some(
                        (shown_local(f, scrutinee) + " is "@ + variant, arms[1], arms[0]),
                    ),
                    (None, None) => None,
                }
            }
        },
        _ => None,
    }
}

/// The name of a matched pattern.
fn pattern_name(f: &MirFunction, scrutinee: LocalId, variant: &String) -> (r: String)
    ensures
        r@ == shown_local(f.deep_view(), scrutinee) + " is "@ + variant@,
{
    let mut out = local_display(f, scrutinee);
    out.append(" is ");
    out.append(variant.as_str());
    out
}

/// Recognises an `if let`.
fn find_if_let(block: &MirBlock, f: &MirFunction) -> (r: Option<(String, BlockId, BlockId)>)
    ensures
        r.deep_view() == if_let_shape(f.deep_view(), block.deep_view()),
{
    let (tag, scrutinee) = match find_discriminant_read(block) {
        Some(t) => t,
        None => return None,
    };
    match &block.terminator {
        MirTerminator::SwitchInt { discr, targets, otherwise, .. } => {
            let arms = collect_arms(targets, *otherwise, f);
            if *discr != tag || arms.len() != 2 {
                return None;
            }
            if let Some(variant) = find_arm_variant(f, arms[0], scrutinee) {
                return Some((pattern_name(f, scrutinee, &variant), arms[0], arms[1]));
            }
            if let Some(variant) = find_arm_variant(f, arms[1], scrutinee) {
                return Some((pattern_name(f, scrutinee, &variant), arms[1], arms[0]));
            }
            None
        },
        _ => None,
    }
}

/// A ladder of tests: each rung names a condition and the block reached when
/// it holds; behind the last rung stands the block reached when none does.
pub struct LadderView {
    pub rungs: Seq<(Seq<char>, BlockId)>,
    pub last: BlockId,
}

/// The rungs of a literal `match`: one per reachable target, in order.
pub open spec fn match_rungs(
    f: FunctionView,
    name: Seq<char>,
    targets: Seq<(u128, BlockId)>,
) -> Seq<(Seq<char>, BlockId)>
    decreases targets.len(),
{
    if targets.len() == 0 {
        seq![]
    } else {
        let rest = match_rungs(f, name, targets.drop_last());
        if unreachable_block(f, targets.last().1) {
            rest
        } else {
            rest.push((name + " == "@ + decimal(targets.last().0 as nat), targets.last().1))
        }
    }
}

/// The tests that a block's switch stands for.
///
/// A switch on a `bool` with the single arm `0` is one test of the
/// discriminant by its name, or by the comparison that computes it. Any other
/// switch is a literal `match`, unless it is on an enum's discriminant; where
/// its `otherwise` arm is unreachable, the last explicit arm takes its place.
pub open spec fn ladder_shape(f: FunctionView, b: BlockView) -> Option<LadderView> {
    match b.terminator {
        TerminatorView::SwitchInt { discr, targets, otherwise, .. } => {
            if type_of(f, discr) == Some("bool"@) && targets.len() == 1 && targets[0].0 == 0 {
                let cond = if f.debug_names.contains_key(discr) {
                    Some(f.debug_names[discr])
                } else {
                    compared_into(f, b.statements, discr)
                };
                match cond {
                    Some(name) => Some(
                        LadderView { rungs: seq![(name, otherwise)], last: targets[0].1 },
                    ),
                    None => None,
                }
            } else if holds_discriminant(b.statements, discr) {
                None
            } else {
                let rungs = match_rungs(f, shown_local(f, discr), targets);
                if rungs.len() == 0 {
                    None
                } else if unreachable_block(f, otherwise) {
                    Some(LadderView { rungs: rungs.drop_last(), last: rungs.last().1 })
                } else {
                    Some(LadderView { rungs, last: otherwise })
                }
            }
        },
        _ => None,
    }
}

/// A ladder of tests.
struct Ladder {
    rungs: Vec<(String, BlockId)>,
    last: BlockId,
}

impl DeepView for Ladder {
    type V = LadderView;

    closed spec fn deep_view(&self) -> LadderView {
        LadderView { rungs: self.rungs.deep_view(), last: self.last }
    }
}

/// The name of a literal pattern.
fn literal_name(name: &String, value: u128) -> (r: String)
    ensures
        r@ == name@ + " == "@ + decimal(value as nat),
{
    let mut out = name.clone();
    out.append(" == ");
    push_decimal(&mut out, value);
    out
}

/// Recovers the rungs of a literal `match`.
fn try_match_from_block(
    f: &MirFunction,
    discr: LocalId,
    targets: &Vec<(u128, BlockId)>,
) -> (r: Vec<(String, BlockId)>)
    ensures
        r.deep_view() == match_rungs(f.deep_view(), shown_local(f.deep_view(), discr), targets@),
{
    let name = local_display(f, discr);
    let mut rungs: Vec<(String, BlockId)> = Vec::new();
    let mut i: usize = 0;
    assert(targets@.take(0) =~= seq![]);
    assert(rungs.deep_view() =~= seq![]);
    while i < targets.len()
        invariant
            i <= targets@.len(),
            name@ == shown_local(f.deep_view(), discr),
            rungs.deep_view() == match_rungs(f.deep_view(), name@, targets@.take(i as int)),
        decreases targets@.len() - i,
    {
        assert(targets@.take(i + 1).drop_last() =~= targets@.take(i as int));
        assert(targets@.take(i + 1).last() == targets@[i as int]);
        let (value, target) = targets[i];
        if !is_unreachable_block(target, f) {
            let ghost before = rungs.deep_view();
            let rung = (literal_name(&name, value), target);
            rungs.push(rung);
            assert(rungs.deep_view() =~= before.push(rung.deep_view()));
        }
        i += 1;
    }
    assert(targets@.take(i as int) =~= targets@);
    rungs
}

/// Recovers the tests that a block's switch stands for.
fn find_ladder(block: &MirBlock, f: &MirFunction) -> (r: Option<Ladder>)
    ensures
        r.deep_view() == ladder_shape(f.deep_view(), block.deep_view()),
{
    match &block.terminator {
        MirTerminator::SwitchInt { discr, targets, otherwise, .. } => {
            let is_bool = match local_type(f, *discr) {
                Some(ty) => same_text(ty.as_str(), "bool"),
                None => false,
            };
            if is_bool && targets.len() == 1 && targets[0].0 == 0 {
                let cond = match name_of(&f.debug_names, *discr) {
                    Some(name) => Some(name),
                    None => synthesize_compare_name(block, *discr, f),
                };
                return match cond {
                    Some(name) => {
                        let mut rungs: Vec<(String, BlockId)> = Vec::new();
                        rungs.push((name, *otherwise));
                        assert(rungs.deep_view() =~= seq![(name@, *otherwise)]);
                        Some(Ladder { rungs, last: targets[0].1 })
                    },
                    None => None,
                };
            }
            if reads_discriminant_into(block, *discr) {
                return None;
            }
            let mut rungs = try_match_from_block(f, *discr, targets);
            if rungs.len() == 0 {
                return None;
            }
            if is_unreachable_block(*otherwise, f) {
                let ghost all = rungs.deep_view();
                let last_index: usize = rungs.len() - 1;
                let last: BlockId = rungs[last_index].1;
                rungs.truncate(last_index);
                assert(rungs.deep_view() =~= all.drop_last());
                Some(Ladder { rungs, last })
            } else {
                Some(Ladder { rungs, last: *otherwise })
            }
        },
        _ => None,
    }
}

// ---------------------------------------------------------------------------
// The walk
// ---------------------------------------------------------------------------

/// The decision that begins at a block, if the walk from it needs no more
/// than `depth` blocks in a row.
///
/// A `?` is passed over to the arm that goes on. A block that sets a value is
/// a leaf, unless the value is an intermediate one that decides a branch
/// further down and such values are followed `through`. A block that branches is an `if let` if both arms are
/// decisions, else a ladder of tests.
pub open spec fn walk(f: FunctionView, through: bool, id: BlockId, depth: nat) -> Option<NodeView>
    decreases depth, 0nat,
{
    if depth == 0 {
        None
    } else {
        let next = (depth - 1) as nat;
        match block_with_id(f.blocks, id) {
            Some(b) => match continue_arm(f, b) {
                Some(arm) => walk(f, through, arm, next),
                None => match block_leaf(f, b) {
                    Some((dst, node)) => match downstream_branch(f, through, b, dst) {
                        Some((yes, no)) => follow(f, through, node, yes, no, next),
                        None => Some(node),
                    },
                    None => match if_let_node(f, through, b, next) {
                        Some(node) => Some(node),
                        None => match ladder_shape(f, b) {
                            Some(ladder) => climb(f, through, ladder.rungs, ladder.last, next),
                            None => None,
                        },
                    },
                },
            },
            None => None,
        }
    }
}

/// The decision that an intermediate value leads to: a constant takes one arm
/// of the branch, a condition tests which one.
pub open spec fn follow(
    f: FunctionView,
    through: bool,
    value: NodeView,
    yes: BlockId,
    no: BlockId,
    depth: nat,
) -> Option<NodeView>
    decreases depth, 1nat,
{
    match value {
        NodeView::Const { value } => if value {
            walk(f, through, yes, depth)
        } else {
            walk(f, through, no, depth)
        },
        NodeView::Condition { name } => match (walk(f, through, yes, depth), walk(f, through, no, depth)) {
            (Some(a), Some(b)) => Some(ite(name, a, b)),
            _ => None,
        },
        NodeView::Ite { .. } => None,
    }
}

/// The decision of an `if let` whose arms are decisions.
pub open spec fn if_let_node(f: FunctionView, through: bool, b: BlockView, depth: nat) -> Option<NodeView>
    decreases depth, 1nat,
{
    match if_let_shape(f, b) {
        Some((cond, matched, other)) => match (
            walk(f, through, matched, depth),
            walk(f, through, other, depth),
        ) {
            (Some(yes), Some(no)) => Some(ite(cond, yes, no)),
            _ => None,
        },
        None => None,
    }
}

/// The decision of a ladder of tests whose blocks are all decisions.
pub open spec fn climb(
    f: FunctionView,
    through: bool,
    rungs: Seq<(Seq<char>, BlockId)>,
    last: BlockId,
    depth: nat,
) -> Option<NodeView>
    decreases depth, rungs.len() + 1,
{
    if rungs.len() == 0 {
        walk(f, through, last, depth)
    } else {
        match (walk(f, through, rungs[0].1, depth), climb(f, through, rungs.skip(1), last, depth)) {
            (Some(yes), Some(no)) => Some(ite(rungs[0].0, yes, no)),
            _ => None,
        }
    }
}

/// Builds an If-Then-Else node.
fn make_ite(cond: String, yes: Node, no: Node) -> (r: Node)
    ensures
        r.deep_view() == ite(cond@, yes.deep_view(), no.deep_view()),
{
    Node::Ite { cond, then_branch: Box::new(yes), else_branch: Box::new(no) }
}

/// Converts one MIR block and what it leads to into a [`Node`], following no
/// more than `depth` blocks in a row.
fn build_decision_from_block(
    block_id: BlockId,
    f: &MirFunction,
    through: bool,
    depth: usize,
) -> (r: Option<Node>)
    ensures
        r.deep_view() == walk(f.deep_view(), through, block_id, depth as nat),
    decreases depth, 0nat,
{
    if depth == 0 {
        return None;
    }
    let next: usize = depth - 1;
    let block = match find_block(f, block_id) {
        Some(b) => b,
        None => return None,
    };
    if let Some(arm) = try_match_try_prefix(block, f) {
        return build_decision_from_block(arm, f, through, next);
    }
    if let Some((dst, value)) = extract_terminal_value(block, f) {
        return match find_downstream_branch(block, dst, f, through) {
            Some((yes, no)) => follow_value(f, through, value, yes, no, next),
            None => Some(value),
        };
    }
    if let Some(node) = try_if_let_from_block(block, f, through, next) {
        return Some(node);
    }
    match find_ladder(block, f) {
        Some(ladder) => {
            assert(ladder.rungs.deep_view().skip(0) =~= ladder.rungs.deep_view());
            climb_ladder(f, through, &ladder.rungs, 0, ladder.last, next)
        },
        None => None,
    }
}

/// Follows an intermediate value into the branch that it decides.
fn follow_value(
    f: &MirFunction,
    through: bool,
    value: Node,
    yes: BlockId,
    no: BlockId,
    depth: usize,
) -> (r: Option<Node>)
    ensures
        r.deep_view() == follow(f.deep_view(), through, value.deep_view(), yes, no, depth as nat),
    decreases depth, 1nat,
{
    match value {
        Node::Const { value } => if value {
            build_decision_from_block(yes, f, through, depth)
        } else {
            build_decision_from_block(no, f, through, depth)
        },
        Node::Condition { name } => {
            let a = match build_decision_from_block(yes, f, through, depth) {
                Some(n) => n,
                None => return None,
            };
            let b = match build_decision_from_block(no, f, through, depth) {
                Some(n) => n,
                None => return None,
            };
            Some(make_ite(name, a, b))
        },
        Node::Ite { .. } => None,
    }
}

/// Recovers an `if let` decision rooted at `block`, if both arms are
/// decisions.
fn try_if_let_from_block(
    block: &MirBlock,
    f: &MirFunction,
    through: bool,
    depth: usize,
) -> (r: Option<Node>)
    ensures
        r.deep_view() == if_let_node(f.deep_view(), through, block.deep_view(), depth as nat),
    decreases depth, 1nat,
{
    match find_if_let(block, f) {
        Some((cond, matched, other)) => {
            let yes = match build_decision_from_block(matched, f, through, depth) {
                Some(n) => n,
                None => return None,
            };
            let no = match build_decision_from_block(other, f, through, depth) {
                Some(n) => n,
                None => return None,
            };
            Some(make_ite(cond, yes, no))
        },
        None => None,
    }
}

/// Converts a ladder of tests from rung `from` on.
fn climb_ladder(
    f: &MirFunction,
    through: bool,
    rungs: &Vec<(String, BlockId)>,
    from: usize,
    last: BlockId,
    depth: usize,
) -> (r: Option<Node>)
    requires
        from <= rungs@.len(),
    ensures
        r.deep_view() == climb(
            f.deep_view(),
            through,
            rungs.deep_view().skip(from as int),
            last,
            depth as nat,
        ),
    decreases depth, rungs@.len() - from + 1,
{
    if from == rungs.len() {
        return build_decision_from_block(last, f, through, depth);
    }
    let ghost all = rungs.deep_view();
    assert(all.skip(from as int)[0] == rungs@[from as int].deep_view());
    assert(all.skip(from as int).skip(1) =~= all.skip(from + 1));
    let yes = match build_decision_from_block(rungs[from].1, f, through, depth) {
        Some(n) => n,
        None => return None,
    };
    match climb_ladder(f, through, rungs, from + 1, last, depth) {
        Some(no) => Some(make_ite(rungs[from].0.clone(), yes, no)),
        None => None,
    }
}

/// The decision of a function, if the walk from its first block needs no more
/// than `depth` blocks in a row. Where intermediate values cannot be followed
/// through, because what they decide is no boolean decision, the decision
/// that computes the first of them stands.
pub open spec fn decision_within(f: FunctionView, depth: nat) -> Option<NodeView> {
    if f.blocks.len() == 0 {
        None
    } else {
        match walk(f, true, f.blocks[0].id, depth) {
            Some(node) => Some(node),
            None => walk(f, false, f.blocks[0].id, depth),
        }
    }
}

/// The decision of a function. No walk without a circle is longer than the
/// number of blocks.
pub open spec fn decision_of(f: FunctionView) -> Option<NodeView> {
    decision_within(f, f.blocks.len())
}

/// The decisions of a sequence of functions, in order.
pub open spec fn decisions_of(functions: Seq<FunctionView>) -> Seq<NodeView>
    decreases functions.len(),
{
    if functions.len() == 0 {
        seq![]
    } else {
        let rest = decisions_of(functions.drop_last());
        match decision_of(functions.last()) {
            Some(node) => rest.push(node),
            None => rest,
        }
    }
}

/// Recovers the decision of one function.
pub fn decompose_function(f: &MirFunction) -> (r: Option<Node>)
    ensures
        r.deep_view() == decision_of(f.deep_view()),
{
    if f.blocks.len() == 0 {
        return None;
    }
    assert(f.deep_view().blocks[0] == f.blocks@[0].deep_view());
    let count: usize = f.blocks.len();
    match build_decision_from_block(f.blocks[0].id, f, true, count) {
        Some(node) => Some(node),
        None => build_decision_from_block(f.blocks[0].id, f, false, count),
    }
}

/// Reduces MIR-level decisions into a [`DecisionTree`].
///
/// For each function the walk starts from the first block; a function whose
/// graph has no supported shape is skipped. Each function contributes at most
/// one [`Node`].
pub fn decompose(mir: &Mir) -> (r: DecisionTree)
    ensures
        r.deep_view().decisions == decisions_of(mir.deep_view().functions),
{
    let ghost all = mir.functions.deep_view();
    let mut decisions: Vec<Node> = Vec::new();
    let mut i: usize = 0;
    assert(all.take(0) =~= seq![]);
    assert(decisions.deep_view() =~= seq![]);
    while i < mir.functions.len()
        invariant
            i <= mir.functions@.len(),
            all == mir.functions.deep_view(),
            decisions.deep_view() == decisions_of(all.take(i as int)),
        decreases mir.functions@.len() - i,
    {
        assert(all.take(i + 1).drop_last() =~= all.take(i as int));
        assert(all.take(i + 1).last() == mir.functions@[i as int].deep_view());
        if let Some(node) = decompose_function(&mir.functions[i]) {
            let ghost before = decisions.deep_view();
            decisions.push(node);
            assert(decisions.deep_view() =~= before.push(node.deep_view()));
        }
        i += 1;
    }
    assert(all.take(i as int) =~= all);
    DecisionTree { decisions }
}

// ---------------------------------------------------------------------------
// Laws
// ---------------------------------------------------------------------------

/// The conditions that a decision tests.
pub open spec fn conditions(node: NodeView) -> Set<Seq<char>>
    decreases node,
{
    match node {
        NodeView::Condition { name } => set![name],
        NodeView::Const { .. } => Set::empty(),
        NodeView::Ite { cond, then_branch, else_branch } => conditions(*then_branch).union(
            conditions(*else_branch),
        ).insert(cond),
    }
}

/// A decision tests finitely many conditions.
pub proof fn conditions_are_finite(node: NodeView)
    ensures
        conditions(node).finite(),
    decreases node,
{
    match node {
        NodeView::Ite { cond, then_branch, else_branch } => {
            conditions_are_finite(*then_branch);
            conditions_are_finite(*else_branch);
        },
        _ => {},
    }
}

/// An observation that settles a decision settles it for good: a larger
/// assignment gives the same value.
pub proof fn evaluation_is_monotone(
    node: NodeView,
    inputs: Map<Seq<char>, bool>,
    more: Map<Seq<char>, bool>,
)
    requires
        inputs.submap_of(more),
        value_of(node, inputs) is Some,
    ensures
        value_of(node, more) == value_of(node, inputs),
    decreases node,
{
    match node {
        NodeView::Ite { cond, then_branch, else_branch } => {
            if inputs[cond] {
                evaluation_is_monotone(*then_branch, inputs, more);
            } else {
                evaluation_is_monotone(*else_branch, inputs, more);
            }
        },
        _ => {},
    }
}

/// An assignment of all conditions settles the decision.
pub proof fn total_assignment_settles(node: NodeView, inputs: Map<Seq<char>, bool>)
    requires
        conditions(node).subset_of(inputs.dom()),
    ensures
        value_of(node, inputs) is Some,
    decreases node,
{
    match node {
        NodeView::Condition { name } => {
            assert(conditions(node).contains(name));
        },
        NodeView::Const { .. } => {},
        NodeView::Ite { cond, then_branch, else_branch } => {
            assert(conditions(node).contains(cond));
            assert forall|n: Seq<char>| conditions(*then_branch).contains(n) implies
                inputs.dom().contains(n) by {
                assert(conditions(node).contains(n));
            }
            assert forall|n: Seq<char>| conditions(*else_branch).contains(n) implies
                inputs.dom().contains(n) by {
                assert(conditions(node).contains(n));
            }
            total_assignment_settles(*then_branch, inputs);
            total_assignment_settles(*else_branch, inputs);
        },
    }
}

/// Each function contributes at most one decision.
pub proof fn one_decision_per_function(functions: Seq<FunctionView>)
    ensures
        decisions_of(functions).len() <= functions.len(),
    decreases functions.len(),
{
    if functions.len() > 0 {
        one_decision_per_function(functions.drop_last());
    }
}

/// Whether a block's switch leads to `t`.
pub open spec fn switch_leads_to(b: BlockView, t: BlockId) -> bool {
    match b.terminator {
        TerminatorView::SwitchInt { targets, otherwise, .. } => t == otherwise || exists|i: int|
            0 <= i < targets.len() && (#[trigger] targets[i]).1 == t,
        _ => false,
    }
}

/// Whether an intermediate value that a block sets leads to `t`.
pub open spec fn value_leads_to(f: FunctionView, through: bool, b: BlockView, t: BlockId) -> bool {
    match block_leaf(f, b) {
        Some((dst, _)) => match downstream_branch(f, through, b, dst) {
            Some((yes, no)) => t == yes || t == no,
            None => false,
        },
        None => false,
    }
}

/// Whether the walk may go from one block to another: over a `?` to the arm
/// that goes on, with an intermediate value into a branch further down, or
/// along a switch.
pub open spec fn steps_to(f: FunctionView, through: bool, id: BlockId, t: BlockId) -> bool {
    match block_with_id(f.blocks, id) {
        Some(b) => continue_arm(f, b) == Some(t) || value_leads_to(f, through, b, t) || switch_leads_to(
            b,
            t,
        ),
        None => false,
    }
}

/// Whether every step of the walk goes down in `rank`, so that the walk has
/// no circle.
pub open spec fn goes_down(f: FunctionView, through: bool, rank: spec_fn(BlockId) -> nat) -> bool {
    forall|id: BlockId, t: BlockId| #[trigger] steps_to(f, through, id, t) ==> rank(t) < rank(id)
}

/// The ids of a function's blocks.
spec fn block_ids(f: FunctionView) -> Set<BlockId> {
    f.blocks.map_values(|b: BlockView| b.id).to_set()
}

/// The blocks that a walk from `id` can still visit.
spec fn visitable(f: FunctionView, rank: spec_fn(BlockId) -> nat, id: BlockId) -> Set<BlockId> {
    block_ids(f).filter(|j: BlockId| j == id || rank(j) < rank(id))
}

proof fn found_block_is_listed(blocks: Seq<BlockView>, id: BlockId)
    requires
        block_with_id(blocks, id) is Some,
    ensures
        blocks.map_values(|b: BlockView| b.id).contains(id),
    decreases blocks.len(),
{
    let ids = blocks.map_values(|b: BlockView| b.id);
    if blocks[0].id == id {
        assert(ids[0] == id);
    } else {
        found_block_is_listed(blocks.skip(1), id);
        let rest = blocks.skip(1).map_values(|b: BlockView| b.id);
        let i = choose|i: int| 0 <= i < rest.len() && rest[i] == id;
        assert(ids[i + 1] == id);
    }
}

proof fn visitable_shrinks(
    f: FunctionView,
    through: bool,
    rank: spec_fn(BlockId) -> nat,
    id: BlockId,
    t: BlockId,
)
    requires
        goes_down(f, through, rank),
        steps_to(f, through, id, t),
        block_with_id(f.blocks, t) is Some,
    ensures
        visitable(f, rank, t).len() < visitable(f, rank, id).len(),
{
    found_block_is_listed(f.blocks, id);
    found_block_is_listed(f.blocks, t);
    let ids = f.blocks.map_values(|b: BlockView| b.id);
    assert(block_ids(f).contains(id));
    assert(visitable(f, rank, id).contains(id));
    assert(!visitable(f, rank, t).contains(id));
    assert(visitable(f, rank, t).subset_of(visitable(f, rank, id).remove(id)));
    vstd::seq_lib::seq_to_set_is_finite(ids);
    vstd::set_lib::lemma_len_subset(visitable(f, rank, t), visitable(f, rank, id).remove(id));
}

proof fn arms_are_targets(
    f: FunctionView,
    arms: Seq<BlockId>,
    targets: Seq<(u128, BlockId)>,
    t: BlockId,
)
    requires
        with_arms(f, arms, targets).contains(t),
    ensures
        arms.contains(t) || exists|i: int|
            0 <= i < targets.len() && (#[trigger] targets[i]).1 == t,
    decreases targets.len(),
{
    if targets.len() > 0 {
        let more = with_arm(f, arms, targets[0].1);
        arms_are_targets(f, more, targets.skip(1), t);
        if more.contains(t) {
            if !arms.contains(t) {
                assert(targets[0].1 == t);
            }
        } else {
            let i = choose|i: int|
                0 <= i < targets.skip(1).len() && (#[trigger] targets.skip(1)[i]).1 == t;
            assert(targets[i + 1].1 == t);
        }
    }
}

proof fn rungs_are_targets(
    f: FunctionView,
    name: Seq<char>,
    targets: Seq<(u128, BlockId)>,
    k: int,
)
    requires
        0 <= k < match_rungs(f, name, targets).len(),
    ensures
        exists|i: int|
            0 <= i < targets.len() && (#[trigger] targets[i]).1 == match_rungs(
                f,
                name,
                targets,
            )[k].1,
    decreases targets.len(),
{
    let rest = match_rungs(f, name, targets.drop_last());
    if k < rest.len() {
        rungs_are_targets(f, name, targets.drop_last(), k);
        let i = choose|i: int|
            0 <= i < targets.drop_last().len() && (#[trigger] targets.drop_last()[i]).1
                == rest[k].1;
        assert(targets[i].1 == rest[k].1);
    } else {
        assert(targets[targets.len() - 1].1 == match_rungs(f, name, targets)[k].1);
    }
}

/// The arms of an `if let` are targets of its switch.
proof fn if_let_steps(f: FunctionView, b: BlockView)
    requires
        if_let_shape(f, b) is Some,
    ensures
        switch_leads_to(b, (if_let_shape(f, b)->0).1),
        switch_leads_to(b, (if_let_shape(f, b)->0).2),
{
    if let TerminatorView::SwitchInt { targets, otherwise, .. } = b.terminator {
        let arms = reachable_arms(f, targets, otherwise);
        assert forall|k: int| 0 <= k < arms.len() implies switch_leads_to(b, #[trigger] arms[k]) by {
            let explicit = with_arms(f, seq![], targets);
            if explicit.contains(arms[k]) {
                arms_are_targets(f, seq![], targets, arms[k]);
            } else {
                assert(arms[k] == otherwise);
            }
        }
    }
}

/// The blocks of a ladder are targets of its switch.
proof fn ladder_steps(f: FunctionView, b: BlockView)
    requires
        ladder_shape(f, b) is Some,
    ensures
        switch_leads_to(b, ladder_shape(f, b)->0.last),
        forall|k: int|
            0 <= k < ladder_shape(f, b)->0.rungs.len() ==> switch_leads_to(
                b,
                (#[trigger] ladder_shape(f, b)->0.rungs[k]).1,
            ),
{
    if let TerminatorView::SwitchInt { discr, targets, otherwise, .. } = b.terminator {
        let name = shown_local(f, discr);
        let all = match_rungs(f, name, targets);
        assert forall|k: int| 0 <= k < all.len() implies switch_leads_to(
            b,
            (#[trigger] all[k]).1,
        ) by {
            rungs_are_targets(f, name, targets, k);
        }
        if targets.len() == 1 {
            assert(switch_leads_to(b, targets[0].1));
        }
    }
}

proof fn climbs_agree(
    f: FunctionView,
    through: bool,
    rungs: Seq<(Seq<char>, BlockId)>,
    last: BlockId,
    n: nat,
    m: nat,
)
    requires
        walk(f, through, last, n) == walk(f, through, last, m),
        forall|k: int|
            0 <= k < rungs.len() ==> walk(f, through, (#[trigger] rungs[k]).1, n) == walk(
                f,
                through,
                rungs[k].1,
                m,
            ),
    ensures
        climb(f, through, rungs, last, n) == climb(f, through, rungs, last, m),
    decreases rungs.len(),
{
    if rungs.len() > 0 {
        let rest = rungs.skip(1);
        assert forall|k: int| 0 <= k < rest.len() implies walk(f, through, (#[trigger] rest[k]).1, n)
            == walk(f, through, rest[k].1, m) by {
            assert(rest[k] == rungs[k + 1]);
        }
        climbs_agree(f, through, rest, last, n, m);
        assert(walk(f, through, rungs[0].1, n) == walk(f, through, rungs[0].1, m));
    }
}

proof fn walks_agree(
    f: FunctionView,
    through: bool,
    rank: spec_fn(BlockId) -> nat,
    id: BlockId,
    n: nat,
    m: nat,
)
    requires
        goes_down(f, through, rank),
        block_with_id(f.blocks, id) is Some ==> visitable(f, rank, id).len() <= n,
        block_with_id(f.blocks, id) is Some ==> visitable(f, rank, id).len() <= m,
    ensures
        walk(f, through, id, n) == walk(f, through, id, m),
    decreases rank(id),
{
    reveal_with_fuel(walk, 2);
    reveal_with_fuel(follow, 2);
    reveal_with_fuel(if_let_node, 2);
    reveal_with_fuel(climb, 2);
    match block_with_id(f.blocks, id) {
        None => {},
        Some(b) => {
            found_block_is_listed(f.blocks, id);
            vstd::seq_lib::seq_to_set_is_finite(f.blocks.map_values(|b: BlockView| b.id));
            assert(visitable(f, rank, id).contains(id));
            assert(visitable(f, rank, id).len() > 0);
            let n1 = (n - 1) as nat;
            let m1 = (m - 1) as nat;
            assert forall|t: BlockId| steps_to(f, through, id, t) implies #[trigger] walk(
                f,
                through,
                t,
                n1,
            ) == walk(
                f,
                through,
                t,
                m1,
            ) by {
                if block_with_id(f.blocks, t) is Some {
                    visitable_shrinks(f, through, rank, id, t);
                }
                walks_agree(f, through, rank, t, n1, m1);
            }
            match continue_arm(f, b) {
                Some(arm) => {
                    assert(steps_to(f, through, id, arm));
                    assert(walk(f, through, id, n) == walk(f, through, arm, n1));
                    assert(walk(f, through, id, m) == walk(f, through, arm, m1));
                    assert(walk(f, through, id, n) == walk(f, through, id, m));
                },
                None => {
                    if let Some((dst, value)) = block_leaf(f, b) {
                        if let Some((yes, no)) = downstream_branch(f, through, b, dst) {
                            assert(steps_to(f, through, id, yes));
                            assert(steps_to(f, through, id, no));
                            assert(walk(f, through, yes, n1) == walk(f, through, yes, m1));
                            assert(walk(f, through, no, n1) == walk(f, through, no, m1));
                            assert(follow(f, through, value, yes, no, n1) == follow(
                                f,
                                through,
                                value,
                                yes,
                                no,
                                m1,
                            ));
                        }
                    }
                    if let Some((cond, matched, other)) = if_let_shape(f, b) {
                        if_let_steps(f, b);
                        assert(steps_to(f, through, id, matched));
                        assert(steps_to(f, through, id, other));
                        assert(walk(f, through, matched, n1) == walk(f, through, matched, m1));
                        assert(walk(f, through, other, n1) == walk(f, through, other, m1));
                    }
                    assert(if_let_node(f, through, b, n1) == if_let_node(f, through, b, m1));
                    if let Some(ladder) = ladder_shape(f, b) {
                        ladder_steps(f, b);
                        assert(steps_to(f, through, id, ladder.last));
                        assert forall|k: int| 0 <= k < ladder.rungs.len() implies walk(
                            f,
                            through,
                            (#[trigger] ladder.rungs[k]).1,
                            n1,
                        ) == walk(f, through, ladder.rungs[k].1, m1) by {
                            assert(steps_to(f, through, id, ladder.rungs[k].1));
                        }
                        climbs_agree(f, through, ladder.rungs, ladder.last, n1, m1);
                    }
                    assert(walk(f, through, id, n) == walk(f, through, id, m));
                },
            }
        },
    }
}

/// In a function whose walk has no circle the bound on its length changes
/// nothing: the decision is what walks of any greater length find.
pub proof fn bound_is_immaterial(f: FunctionView, rank: spec_fn(BlockId) -> nat, depth: nat)
    requires
        goes_down(f, true, rank),
        depth >= f.blocks.len(),
    ensures
        decision_of(f) == decision_within(f, depth),
{
    if f.blocks.len() > 0 {
        let id = f.blocks[0].id;
        let ids = f.blocks.map_values(|b: BlockView| b.id);
        vstd::seq_lib::seq_to_set_is_finite(ids);
        ids.lemma_cardinality_of_set();
        vstd::set_lib::lemma_len_subset(visitable(f, rank, id), block_ids(f));
        assert forall|a: BlockId, t: BlockId| #[trigger] steps_to(f, false, a, t) implies rank(t)
            < rank(a) by {
            assert(steps_to(f, true, a, t));
        }
        walks_agree(f, true, rank, id, f.blocks.len(), depth);
        walks_agree(f, false, rank, id, f.blocks.len(), depth);
    }
}

/// Whether the walk from one block is a decision only if that from another
/// is: the arm behind a `?`, the blocks that an intermediate value decides
/// between, the arms of an `if let`, the blocks of a ladder.
pub open spec fn needs(f: FunctionView, through: bool, id: BlockId, t: BlockId) -> bool {
    match block_with_id(f.blocks, id) {
        Some(b) => match continue_arm(f, b) {
            Some(arm) => t == arm,
            None => match block_leaf(f, b) {
                Some((dst, value)) => match (downstream_branch(f, through, b, dst), value) {
                    (Some((yes, no)), NodeView::Const { value }) => t == if value {
                        yes
                    } else {
                        no
                    },
                    (Some((yes, no)), NodeView::Condition { .. }) => t == yes || t == no,
                    _ => false,
                },
                None => match (if_let_shape(f, b), ladder_shape(f, b)) {
                    (Some((_, matched, other)), None) => t == matched || t == other,
                    (None, Some(ladder)) => t == ladder.last || exists|k: int|
                        0 <= k < ladder.rungs.len() && (#[trigger] ladder.rungs[k]).1 == t,
                    _ => false,
                },
            },
        },
        None => false,
    }
}

proof fn climb_needs_every_block(
    f: FunctionView,
    through: bool,
    rungs: Seq<(Seq<char>, BlockId)>,
    last: BlockId,
    depth: nat,
)
    requires
        climb(f, through, rungs, last, depth) is Some,
    ensures
        walk(f, through, last, depth) is Some,
        forall|k: int|
            0 <= k < rungs.len() ==> walk(f, through, (#[trigger] rungs[k]).1, depth) is Some,
    decreases rungs.len(),
{
    reveal_with_fuel(climb, 2);
    if rungs.len() > 0 {
        let rest = rungs.skip(1);
        climb_needs_every_block(f, through, rest, last, depth);
        assert forall|k: int| 0 <= k < rungs.len() implies walk(
            f,
            through,
            (#[trigger] rungs[k]).1,
            depth,
        ) is Some by {
            if k > 0 {
                assert(rungs[k] == rest[k - 1]);
            }
        }
    }
}

proof fn needed_walk_is_there(
    f: FunctionView,
    through: bool,
    id: BlockId,
    t: BlockId,
    depth: nat,
)
    requires
        needs(f, through, id, t),
        walk(f, through, id, depth) is Some,
    ensures
        depth > 0,
        walk(f, through, t, (depth - 1) as nat) is Some,
{
    reveal_with_fuel(walk, 2);
    reveal_with_fuel(follow, 2);
    reveal_with_fuel(if_let_node, 2);
    let next = (depth - 1) as nat;
    let b = block_with_id(f.blocks, id)->0;
    match continue_arm(f, b) {
        Some(arm) => {
            assert(walk(f, through, id, depth) == walk(f, through, arm, next));
        },
        None => match block_leaf(f, b) {
            Some((dst, value)) => {
                if let Some((yes, no)) = downstream_branch(f, through, b, dst) {
                    assert(walk(f, through, id, depth) == follow(f, through, value, yes, no, next));
                }
            },
            None => {
                match (if_let_shape(f, b), ladder_shape(f, b)) {
                    (Some((cond, matched, other)), None) => {
                        assert(walk(f, through, id, depth) == if_let_node(f, through, b, next));
                    },
                    (None, Some(ladder)) => {
                        assert(if_let_node(f, through, b, next) is None);
                        assert(walk(f, through, id, depth) == climb(
                            f,
                            through,
                            ladder.rungs,
                            ladder.last,
                            next,
                        ));
                        climb_needs_every_block(f, through, ladder.rungs, ladder.last, next);
                    },
                    _ => {},
                }
            },
        },
    }
}

proof fn needed_chain(
    f: FunctionView,
    through: bool,
    path: Seq<BlockId>,
    i: int,
    k: int,
    depth: nat,
)
    requires
        0 <= i <= k < path.len(),
        forall|q: int| 0 <= q < path.len() - 1 ==> needs(f, through, #[trigger] path[q], path[q + 1]),
        walk(f, through, path[i], depth) is Some,
    ensures
        depth >= k - i,
        walk(f, through, path[k], (depth - (k - i)) as nat) is Some,
    decreases k - i,
{
    if i < k {
        needed_chain(f, through, path, i, k - 1, depth);
        assert(needs(f, through, path[k - 1], path[k - 1 + 1]));
        needed_walk_is_there(f, through, path[k - 1], path[k], (depth - (k - 1 - i)) as nat);
    }
}

proof fn circle_yields_nothing(
    f: FunctionView,
    through: bool,
    path: Seq<BlockId>,
    i: int,
    j: int,
    depth: nat,
)
    requires
        0 <= i < j < path.len(),
        path[i] == path[j],
        forall|q: int| 0 <= q < path.len() - 1 ==> needs(f, through, #[trigger] path[q], path[q + 1]),
    ensures
        walk(f, through, path[i], depth) is None,
    decreases depth,
{
    if walk(f, through, path[i], depth) is Some {
        needed_chain(f, through, path, i, j, depth);
        circle_yields_nothing(f, through, path, i, j, (depth - (j - i)) as nat);
    }
}

/// A walk that comes back to a block yields no decision, however long it may
/// be: where each block of a path needs the next and one block occurs twice,
/// the walk from the first block finds nothing.
pub proof fn returning_walk_yields_nothing(
    f: FunctionView,
    through: bool,
    path: Seq<BlockId>,
    i: int,
    j: int,
    depth: nat,
)
    requires
        0 <= i < j < path.len(),
        path[i] == path[j],
        forall|q: int| 0 <= q < path.len() - 1 ==> needs(f, through, #[trigger] path[q], path[q + 1]),
    ensures
        walk(f, through, path[0], depth) is None,
{
    if walk(f, through, path[0], depth) is Some {
        needed_chain(f, through, path, 0, i, depth);
        circle_yields_nothing(f, through, path, i, j, (depth - i) as nat);
    }
}

/// What running the blocks from `id` on gives under an assignment of the
/// conditions, one block after the other, for at most `depth` blocks: each
/// block is taken as the test that it stands for, whose branch its condition
/// decides, and the first value that is set and decides no further branch is
/// the outcome.
pub open spec fn run(
    f: FunctionView,
    through: bool,
    id: BlockId,
    inputs: Map<Seq<char>, bool>,
    depth: nat,
) -> Option<bool>
    decreases depth, 0nat,
{
    if depth == 0 {
        None
    } else {
        let next = (depth - 1) as nat;
        match block_with_id(f.blocks, id) {
            Some(b) => match continue_arm(f, b) {
                Some(arm) => run(f, through, arm, inputs, next),
                None => match block_leaf(f, b) {
                    Some((dst, value)) => match (
                        value_of(value, inputs),
                        downstream_branch(f, through, b, dst),
                    ) {
                        (Some(true), Some((yes, no))) => run(f, through, yes, inputs, next),
                        (Some(false), Some((yes, no))) => run(f, through, no, inputs, next),
                        (v, None) => v,
                        (None, _) => None,
                    },
                    None => if if_let_node(f, through, b, next) is Some {
                        let (cond, matched, other) = if_let_shape(f, b)->0;
                        match inputs.get(cond) {
                            Some(true) => run(f, through, matched, inputs, next),
                            Some(false) => run(f, through, other, inputs, next),
                            None => None,
                        }
                    } else {
                        match ladder_shape(f, b) {
                            Some(ladder) => run_ladder(
                                f,
                                through,
                                ladder.rungs,
                                ladder.last,
                                inputs,
                                next,
                            ),
                            None => None,
                        }
                    },
                },
            },
            None => None,
        }
    }
}

/// What running a ladder of tests gives: the block of the first test that
/// holds is run, or the last one.
pub open spec fn run_ladder(
    f: FunctionView,
    through: bool,
    rungs: Seq<(Seq<char>, BlockId)>,
    last: BlockId,
    inputs: Map<Seq<char>, bool>,
    depth: nat,
) -> Option<bool>
    decreases depth, rungs.len() + 1,
{
    if rungs.len() == 0 {
        run(f, through, last, inputs, depth)
    } else {
        match inputs.get(rungs[0].0) {
            Some(true) => run(f, through, rungs[0].1, inputs, depth),
            Some(false) => run_ladder(f, through, rungs.skip(1), last, inputs, depth),
            None => None,
        }
    }
}

proof fn ladder_computes_run(
    f: FunctionView,
    through: bool,
    rungs: Seq<(Seq<char>, BlockId)>,
    last: BlockId,
    inputs: Map<Seq<char>, bool>,
    depth: nat,
)
    requires
        climb(f, through, rungs, last, depth) is Some,
    ensures
        value_of(climb(f, through, rungs, last, depth)->0, inputs) == run_ladder(
            f,
            through,
            rungs,
            last,
            inputs,
            depth,
        ),
    decreases depth, rungs.len() + 1,
{
    reveal_with_fuel(climb, 2);
    reveal_with_fuel(run_ladder, 2);
    if rungs.len() == 0 {
        tree_computes_run(f, through, last, inputs, depth);
    } else {
        tree_computes_run(f, through, rungs[0].1, inputs, depth);
        ladder_computes_run(f, through, rungs.skip(1), last, inputs, depth);
        let yes = walk(f, through, rungs[0].1, depth)->0;
        let no = climb(f, through, rungs.skip(1), last, depth)->0;
        assert(climb(f, through, rungs, last, depth) == Some(ite(rungs[0].0, yes, no)));
    }
}

/// The recovered tree computes what the tests compute that the blocks stand
/// for: under every assignment of its conditions, whole or partial, it has
/// the value that running the blocks gives.
pub proof fn tree_computes_run(
    f: FunctionView,
    through: bool,
    id: BlockId,
    inputs: Map<Seq<char>, bool>,
    depth: nat,
)
    requires
        walk(f, through, id, depth) is Some,
    ensures
        value_of(walk(f, through, id, depth)->0, inputs) == run(f, through, id, inputs, depth),
    decreases depth, 0nat,
{
    reveal_with_fuel(walk, 2);
    reveal_with_fuel(run, 2);
    let next = (depth - 1) as nat;
    let b = block_with_id(f.blocks, id)->0;
    match continue_arm(f, b) {
        Some(arm) => {
            assert(walk(f, through, id, depth) == walk(f, through, arm, next));
            tree_computes_run(f, through, arm, inputs, next);
        },
        None => match block_leaf(f, b) {
            Some((dst, value)) => {
                leaves_are_simple(f, switched_local(b), b.statements);
                match downstream_branch(f, through, b, dst) {
                    Some((yes, no)) => {
                        assert(walk(f, through, id, depth) == follow(f, through, value, yes, no, next));
                        reveal_with_fuel(follow, 2);
                        match value {
                            NodeView::Const { value } => {
                                if value {
                                    tree_computes_run(f, through, yes, inputs, next);
                                } else {
                                    tree_computes_run(f, through, no, inputs, next);
                                }
                            },
                            NodeView::Condition { name } => {
                                let y = walk(f, through, yes, next)->0;
                                let n = walk(f, through, no, next)->0;
                                assert(walk(f, through, id, depth) == Some(ite(name, y, n)));
                                tree_computes_run(f, through, yes, inputs, next);
                                tree_computes_run(f, through, no, inputs, next);
                            },
                            NodeView::Ite { .. } => {},
                        }
                    },
                    None => {
                        assert(walk(f, through, id, depth) == Some(value));
                    },
                }
            },
            None => {
                if if_let_node(f, through, b, next) is Some {
                    reveal_with_fuel(if_let_node, 2);
                    let (cond, matched, other) = if_let_shape(f, b)->0;
                    let y = walk(f, through, matched, next)->0;
                    let n = walk(f, through, other, next)->0;
                    assert(if_let_node(f, through, b, next) == Some(ite(cond, y, n)));
                    assert(walk(f, through, id, depth) == Some(ite(cond, y, n)));
                    tree_computes_run(f, through, matched, inputs, next);
                    tree_computes_run(f, through, other, inputs, next);
                } else {
                    let ladder = ladder_shape(f, b)->0;
                    assert(walk(f, through, id, depth) == climb(f, through, ladder.rungs, ladder.last, next));
                    ladder_computes_run(f, through, ladder.rungs, ladder.last, inputs, next);
                }
            },
        },
    }
}

proof fn leaves_are_simple(
    f: FunctionView,
    switched: Option<LocalId>,
    statements: Seq<StatementView>,
)
    ensures
        first_leaf(f, switched, statements) matches Some((_, node)) ==> !(node is Ite),
    decreases statements.len(),
{
    if statements.len() > 0 {
        leaves_are_simple(f, switched, statements.skip(1));
    }
}

} // verus!
