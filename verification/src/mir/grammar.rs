//! What rustc writes is what is read: the notation of each part of a dump,
//! and that it is read back.
use crate::mir::lines::{
    arrow_target, assignment, call_terminator, capture_read, comparison, comparison_head,
    const_bool, copied_local, discriminant_of, downcast, env_field, leads_on_at, local_token,
    numbered, operand, return_target, statement_line, switch_arms, switch_terminator,
    terminator_line, terminator_shape,
};
use crate::mir::{
    BlockId, CompareOp, LocalId, OperandView, SpanView, StatementView, TerminatorView,
};
use crate::text::laws::{
    all_space, cuts_are_around_occurrences, depth_of_front, depths_add_up,
    outer_is_the_first_outside, outer_pieces_of_joined, prefix_and_suffix_come_off, separates,
    trimming_keeps_the_rest,
};
use crate::text::{
    after_prefix, before_suffix, begins_with, cut_first, cut_first_at, cut_last, cut_last_at,
    decimal, decimal_digits, decimal_reads_back, depth_before, is_digit, is_space, nesting_at,
    number_u128, number_u32, occurs_at, outer_from, outer_pieces, pieces, pieces_of_joined,
    pieces_of_one, trimmed, trimmed_back,
};
use vstd::prelude::*;

verus! {

// ---------------------------------------------------------------------------
// Pieces
// ---------------------------------------------------------------------------

/// A local as it is written.
pub open spec fn local_text(local: LocalId) -> Seq<char> {
    "_"@ + decimal(local as nat)
}

/// A block as it is written.
pub open spec fn block_text(id: BlockId) -> Seq<char> {
    "bb"@ + decimal(id as nat)
}

/// Whether a text has no white space at its ends, and is not empty.
pub open spec fn is_trim(s: Seq<char>) -> bool {
    s.len() > 0 && !is_space(s[0]) && !is_space(s.last())
}

/// Whether a character does not occur in a text.
pub open spec fn lacks(s: Seq<char>, c: char) -> bool {
    forall|i: int| 0 <= i < s.len() ==> #[trigger] s[i] != c
}

pub(crate) proof fn trim_stays(s: Seq<char>)
    requires
        is_trim(s),
    ensures
        trimmed(s) == s,
        trimmed(seq![' '] + s) == s,
        trimmed_back(s) == s,
        trimmed_back(s + seq![' ']) == s,
{
    let none = Seq::<char>::empty();
    let one = seq![' '];
    trimming_keeps_the_rest(none, s, none);
    assert(none + s + none =~= s);
    assert(s + none =~= s);
    assert(all_space(one)) by {
        assert(is_space(one[0]));
    }
    trimming_keeps_the_rest(one, s, none);
    assert(one + s + none =~= one + s);
    trimming_keeps_the_rest(none, s, one);
}

pub(crate) proof fn digits_of(n: nat)
    ensures
        decimal(n).len() > 0,
        is_trim(decimal(n)),
        forall|i: int|
            0 <= i < decimal(n).len() ==> 48 <= (#[trigger] decimal(n)[i] as u32) <= 57,
        n <= u32::MAX ==> number_u32(decimal(n)) == Some(n as u32),
        n <= u128::MAX ==> number_u128(decimal(n)) == Some(n as u128),
{
    decimal_digits(n);
    decimal_reads_back(n);
    assert(is_digit(decimal(n)[0]));
    assert(is_digit(decimal(n).last()));
    assert forall|i: int| 0 <= i < decimal(n).len() implies 48 <= (#[trigger] decimal(n)[i] as u32)
        <= 57 by {
        assert(is_digit(decimal(n)[i]));
    }
}

pub(crate) proof fn local_is_read(n: LocalId)
    ensures
        is_trim(local_text(n)),
        numbered(local_text(n), "_"@) == Some(n),
        lacks(local_text(n), ' '),
        lacks(local_text(n), ':'),
        lacks(local_text(n), '='),
        lacks(local_text(n), ')'),
        lacks(local_text(n), '('),
        lacks(local_text(n), ','),
        local_text(n)[0] == '_',
{
    reveal_strlit("_");
    digits_of(n as nat);
    prefix_and_suffix_come_off("_"@, decimal(n as nat));
    let s = local_text(n);
    assert(s.last() == decimal(n as nat).last());
    assert forall|i: int| 0 <= i < s.len() implies #[trigger] s[i] == '_' || 48 <= (s[i] as u32)
        <= 57 by {
        if i > 0 {
            assert(s[i] == decimal(n as nat)[i - 1]);
        }
    }
}

pub(crate) proof fn block_is_read(n: BlockId)
    ensures
        is_trim(block_text(n)),
        numbered(block_text(n), "bb"@) == Some(n),
        lacks(block_text(n), ' '),
        lacks(block_text(n), ':'),
        lacks(block_text(n), ','),
        lacks(block_text(n), ')'),
        forall|i: int| 0 <= i < block_text(n).len() ==> !is_space(#[trigger] block_text(n)[i]),
{
    reveal_strlit("bb");
    digits_of(n as nat);
    prefix_and_suffix_come_off("bb"@, decimal(n as nat));
    let s = block_text(n);
    assert(s.last() == decimal(n as nat).last());
    assert forall|i: int| 0 <= i < s.len() implies #[trigger] s[i] == 'b' || 48 <= (s[i] as u32)
        <= 57 by {
        if i > 1 {
            assert(s[i] == decimal(n as nat)[i - 2]);
        }
    }
}

/// Where the first character of a pattern is lacking, the pattern does not
/// occur.
proof fn lacking_is_no_occurrence(s: Seq<char>, p: Seq<char>, k: int)
    requires
        0 <= k < p.len(),
        lacks(s, p[k]),
    ensures
        forall|j: int| !#[trigger] occurs_at(s, p, j),
        cut_first(s, p) is None,
        cut_last(s, p) is None,
{
    assert forall|j: int| !#[trigger] occurs_at(s, p, j) by {
        if occurs_at(s, p, j) {
            assert(s.subrange(j, j + p.len())[k] == s[j + k]);
        }
    }
    cuts_are_around_occurrences(s, p);
    if let Some((a, b)) = cut_first(s, p) {
        assert(s.subrange(a.len() as int, (a.len() + p.len()) as int) =~= p);
        assert(occurs_at(s, p, a.len() as int));
    }
    if let Some((a, b)) = cut_last(s, p) {
        assert(s.subrange(a.len() as int, (a.len() + p.len()) as int) =~= p);
        assert(occurs_at(s, p, a.len() as int));
    }
}

/// A text is cut at the first pattern behind a part that lacks the pattern's
/// first character.
pub(crate) proof fn cut_behind(a: Seq<char>, p: Seq<char>, b: Seq<char>)
    requires
        p.len() > 0,
        lacks(a, p[0]),
    ensures
        cut_first(a + p + b, p) == Some((a, b)),
{
    let s = a + p + b;
    assert forall|j: int| 0 <= j < a.len() implies !#[trigger] occurs_at(s, p, j) by {
        if occurs_at(s, p, j) {
            assert(s.subrange(j, j + p.len())[0] == s[j]);
            assert(s[j] == a[j]);
        }
    }
    cut_first_at(a, p, b);
}

/// A text does not begin as another that differs from it somewhere.
pub(crate) proof fn other_beginning(s: Seq<char>, p: Seq<char>, k: int)
    requires
        0 <= k < p.len(),
        k < s.len() ==> s[k] != p[k],
    ensures
        !begins_with(s, p),
        after_prefix(s, p) is None,
{
    if begins_with(s, p) {
        assert(s.take(p.len() as int)[k] == s[k]);
    }
}

// ---------------------------------------------------------------------------
// Terminators
// ---------------------------------------------------------------------------

/// The terminators that stand alone, and jumps, are read back.
pub proof fn plain_terminators_are_read(target: BlockId, span: Option<SpanView>)
    ensures
        terminator_line("return;"@, span) == Some(TerminatorView::Return { span }),
        terminator_line("unreachable;"@, span) == Some(TerminatorView::Unreachable { span }),
        terminator_line("goto -> bb"@ + decimal(target as nat) + ";"@, span) == Some(
            TerminatorView::Goto { target, span },
        ),
{
    reveal_strlit("return");
    reveal_strlit("return;");
    reveal_strlit("unreachable");
    reveal_strlit("unreachable;");
    reveal_strlit("goto -> bb");
    reveal_strlit(";");
    assert("return;"@ =~= "return"@ + ";"@);
    prefix_and_suffix_come_off(";"@, "return"@);
    assert("unreachable;"@ =~= "unreachable"@ + ";"@);
    prefix_and_suffix_come_off(";"@, "unreachable"@);
    assert("unreachable"@.len() != "return"@.len());
    let s = "goto -> bb"@ + decimal(target as nat);
    prefix_and_suffix_come_off(";"@, s);
    digits_of(target as nat);
    prefix_and_suffix_come_off("goto -> bb"@, decimal(target as nat));
    assert(s[0] == 'g');
    assert("return"@[0] == 'r');
    assert("unreachable"@[0] == 'u');
}

/// The arms of a switch as they are written.
pub open spec fn arms_text(targets: Seq<(u128, BlockId)>, otherwise: BlockId) -> Seq<char>
    decreases targets.len(),
{
    if targets.len() == 0 {
        "otherwise: "@ + block_text(otherwise)
    } else {
        decimal(targets[0].0 as nat) + ": "@ + block_text(targets[0].1) + ", "@ + arms_text(
            targets.skip(1),
            otherwise,
        )
    }
}

proof fn arm_is_cut(key: Seq<char>, id: BlockId)
    requires
        is_trim(key),
        lacks(key, ':'),
        lacks(key, ','),
    ensures
        is_trim(key + ": "@ + block_text(id)),
        lacks(key + ": "@ + block_text(id), ','),
        cut_first(key + ": "@ + block_text(id), ":"@) == Some((key, seq![' '] + block_text(id))),
        trimmed(seq![' '] + block_text(id)) == block_text(id),
        numbered(block_text(id), "bb"@) == Some(id),
{
    reveal_strlit(": ");
    reveal_strlit(":");
    block_is_read(id);
    trim_stays(block_text(id));
    let s = key + ": "@ + block_text(id);
    assert(s =~= key + ":"@ + (seq![' '] + block_text(id)));
    cut_behind(key, ":"@, seq![' '] + block_text(id));
    assert(s[0] == key[0]);
    assert(s.last() == block_text(id).last());
    assert forall|i: int| 0 <= i < s.len() implies #[trigger] s[i] != ',' by {
        if i < key.len() {
            assert(s[i] == key[i]);
        } else if i >= key.len() + 2 {
            assert(s[i] == block_text(id)[i - key.len() - 2]);
        }
    }
}

proof fn key_is_read(value: u128)
    ensures
        is_trim(decimal(value as nat)),
        lacks(decimal(value as nat), ':'),
        lacks(decimal(value as nat), ','),
        trimmed(decimal(value as nat)) == decimal(value as nat),
        decimal(value as nat) != "otherwise"@,
        number_u128(decimal(value as nat)) == Some(value),
{
    digits_of(value as nat);
    trim_stays(decimal(value as nat));
    reveal_strlit("otherwise");
    let d = decimal(value as nat);
    assert(48 <= (d[0] as u32) <= 57);
    assert("otherwise"@[0] == 'o');
}

proof fn arms_are_read(
    pad: Seq<char>,
    targets: Seq<(u128, BlockId)>,
    otherwise: BlockId,
    before: Seq<(u128, BlockId)>,
)
    requires
        pad == Seq::<char>::empty() || pad == seq![' '],
    ensures
        switch_arms(pieces(pad + arms_text(targets, otherwise), ','), before, None) == Some(
            (before + targets, Some(otherwise)),
        ),
    decreases targets.len(),
{
    reveal_with_fuel(switch_arms, 2);
    let none = Seq::<char>::empty();
    if targets.len() == 0 {
        let key = "otherwise"@;
        reveal_strlit("otherwise");
        reveal_strlit("otherwise: ");
        reveal_strlit(": ");
        let arm = key + ": "@ + block_text(otherwise);
        assert(arms_text(targets, otherwise) =~= arm);
        arm_is_cut(key, otherwise);
        trim_stays(arm);
        trim_stays(key);
        assert(none + arm =~= arm);
        assert(!(pad + arm).contains(',')) by {
            if (pad + arm).contains(',') {
                let i = choose|i: int| 0 <= i < (pad + arm).len() && (pad + arm)[i] == ',';
                assert(i >= pad.len());
                assert(arm[i - pad.len()] == ',');
            }
        }
        pieces_of_one(pad + arm, ',', 0);
        let parts = seq![pad + arm];
        assert(parts.skip(1) =~= seq![]);
        assert(trimmed(parts[0]) == arm);
        assert(before + targets =~= before);
    } else {
        let (value, id) = targets[0];
        let arm = decimal(value as nat) + ": "@ + block_text(id);
        let rest = arms_text(targets.skip(1), otherwise);
        reveal_strlit(", ");
        key_is_read(value);
        arm_is_cut(decimal(value as nat), id);
        trim_stays(arm);
        assert(none + arm =~= arm);
        let first = pad + arm;
        assert(pad + arms_text(targets, otherwise) =~= first.push(',') + (seq![' '] + rest));
        assert(!first.contains(',')) by {
            if first.contains(',') {
                let i = choose|i: int| 0 <= i < first.len() && first[i] == ',';
                assert(i >= pad.len());
                assert(arm[i - pad.len()] == ',');
            }
        }
        pieces_of_joined(first, ',', seq![' '] + rest);
        pieces_of_one(first, ',', 0);
        let others = pieces(seq![' '] + rest, ',');
        let parts = seq![first] + others;
        assert(parts.skip(1) =~= others);
        assert(parts[0] == first);
        assert(trimmed(first) == arm);
        arms_are_read(seq![' '], targets.skip(1), otherwise, before.push((value, id)));
        assert(before.push((value, id)) + targets.skip(1) =~= before + targets);
    }
}

/// Whether a text is how an operand of a switch is taken.
pub open spec fn is_taking(how: Seq<char>) -> bool {
    how == ""@ || how == "copy "@ || how == "move "@
}

proof fn token_is_read(how: Seq<char>, local: LocalId)
    requires
        is_taking(how),
    ensures
        local_token(how + local_text(local)) == Some(local),
        lacks(how + local_text(local), ')'),
        lacks(how + local_text(local), '='),
        is_trim(how + local_text(local)),
{
    reveal_strlit("");
    reveal_strlit("copy ");
    reveal_strlit("move ");
    reveal_strlit("_");
    reveal_strlit("copy _");
    reveal_strlit("move _");
    local_is_read(local);
    digits_of(local as nat);
    let d = decimal(local as nat);
    let s = how + local_text(local);
    assert(s.last() == local_text(local).last());
    assert forall|i: int| 0 <= i < s.len() implies #[trigger] s[i] != ')' && s[i] != '=' by {
        if i >= how.len() {
            assert(s[i] == local_text(local)[i - how.len()]);
        }
    }
    if how == "copy "@ {
        assert(s =~= "copy _"@ + d);
        prefix_and_suffix_come_off("copy _"@, d);
    } else if how == "move "@ {
        assert(s =~= "move _"@ + d);
        prefix_and_suffix_come_off("move _"@, d);
        other_beginning(s, "copy _"@, 0);
    } else {
        assert(s =~= local_text(local));
        other_beginning(s, "copy _"@, 0);
        other_beginning(s, "move _"@, 0);
    }
}

/// A switch is read back: its local, however it is taken, all its arms in
/// order, however many there are, and its `otherwise`.
pub proof fn switch_is_read(
    how: Seq<char>,
    discr: LocalId,
    targets: Seq<(u128, BlockId)>,
    otherwise: BlockId,
    span: Option<SpanView>,
)
    requires
        is_taking(how),
    ensures
        terminator_line(
            "switchInt("@ + (how + local_text(discr)) + ") -> ["@ + arms_text(targets, otherwise)
                + "];"@,
            span,
        ) == Some(TerminatorView::SwitchInt { discr, targets, otherwise, span }),
{
    let token = how + local_text(discr);
    let arms = arms_text(targets, otherwise);
    let arrow = ") -> ["@;
    let s = "switchInt("@ + token + arrow + arms + "]"@;
    reveal_strlit("switchInt(");
    reveal_strlit(") -> [");
    reveal_strlit("];");
    reveal_strlit("]");
    reveal_strlit(";");
    assert("switchInt("@ + token + arrow + arms + "];"@ =~= s + ";"@);
    prefix_and_suffix_come_off(";"@, s);
    token_is_read(how, discr);
    reveal_strlit("return");
    reveal_strlit("unreachable");
    reveal_strlit("goto -> bb");
    assert(s[0] == 's');
    assert("return"@[0] == 'r');
    assert("unreachable"@[0] == 'u');
    other_beginning(s, "goto -> bb"@, 0);
    let rest = token + arrow + (arms + "]"@);
    assert(s =~= "switchInt("@ + rest);
    prefix_and_suffix_come_off("switchInt("@, rest);
    cut_behind(token, arrow, arms + "]"@);
    prefix_and_suffix_come_off("]"@, arms);
    assert(Seq::<char>::empty() + arms =~= arms);
    arms_are_read(Seq::empty(), targets, otherwise, seq![]);
    assert(Seq::<(u128, BlockId)>::empty() + targets =~= targets);
    assert(switch_terminator(rest) == Some((discr, targets, otherwise)));
    no_call(s, token, arms);
}

/// The arms of a switch hold no arrow.
proof fn arms_lack_arrows(targets: Seq<(u128, BlockId)>, otherwise: BlockId)
    ensures
        lacks(arms_text(targets, otherwise), ')'),
    decreases targets.len(),
{
    reveal_strlit("otherwise: ");
    reveal_strlit(": ");
    reveal_strlit(", ");
    let all = arms_text(targets, otherwise);
    if targets.len() == 0 {
        block_is_read(otherwise);
        assert forall|i: int| 0 <= i < all.len() implies #[trigger] all[i] != ')' by {
            if i >= 11 {
                assert(all[i] == block_text(otherwise)[i - 11]);
            }
        }
    } else {
        let d = decimal(targets[0].0 as nat);
        let t = block_text(targets[0].1);
        let rest = arms_text(targets.skip(1), otherwise);
        digits_of(targets[0].0 as nat);
        block_is_read(targets[0].1);
        arms_lack_arrows(targets.skip(1), otherwise);
        assert forall|i: int| 0 <= i < all.len() implies #[trigger] all[i] != ')' by {
            if i < d.len() {
                assert(all[i] == d[i]);
            } else if i < d.len() + 2 {
                assert(all[i] == ": "@[i - d.len()]);
            } else if i < d.len() + 2 + t.len() {
                assert(all[i] == t[i - d.len() - 2]);
            } else if i < d.len() + 4 + t.len() {
                assert(all[i] == ", "@[i - d.len() - 2 - t.len()]);
            } else {
                assert(all[i] == rest[i - d.len() - 4 - t.len()]);
            }
        }
    }
}

proof fn no_call(s: Seq<char>, token: Seq<char>, arms: Seq<char>)
    requires
        s == "switchInt("@ + token + ") -> ["@ + arms + "]"@,
        lacks(token, '='),
        exists|targets: Seq<(u128, BlockId)>, otherwise: BlockId|
            arms == #[trigger] arms_text(targets, otherwise),
    ensures
        call_terminator(s) is None,
{
    let (targets, otherwise) = choose|targets: Seq<(u128, BlockId)>, otherwise: BlockId|
        arms == #[trigger] arms_text(targets, otherwise);
    arms_lack_arrows(targets, otherwise);
    reveal_strlit("switchInt(");
    reveal_strlit(") -> [");
    reveal_strlit("]");
    reveal_strlit(" = ");
    let arrow = ") -> ["@;
    let head = "switchInt("@ + token;
    let after = arms + "]"@;
    assert(s =~= head + arrow + after);
    assert forall|j: int| 0 < j implies !#[trigger] occurs_at(arrow + after, arrow, j) by {
        let t = arrow + after;
        if occurs_at(t, arrow, j) {
            assert(t.subrange(j, j + 6)[0] == t[j]);
            if 6 <= j < 6 + arms.len() {
                assert(t[j] == arms[j - 6]);
            }
        }
    }
    cut_last_at(head, arrow, after);
    let call = head.push(')');
    assert forall|i: int| 0 <= i < call.len() implies #[trigger] call[i] != '=' by {
        if 10 <= i < head.len() {
            assert(call[i] == token[i - 10]);
        }
    }
    lacking_is_no_occurrence(call, " = "@, 1);
}

/// A call is read back: where its result goes, the function expression
/// without its arguments, and the block it returns to. The expression and the
/// arguments may hold brackets, as long as they close, and the arms behind
/// the first may hold anything but another arrow.
pub proof fn call_is_read(
    dst: LocalId,
    func: Seq<char>,
    args: Seq<char>,
    target: BlockId,
    unwind: Seq<char>,
    span: Option<SpanView>,
)
    requires
        is_trim(func),
        func.last() != '-',
        depth_before(func, func.len() as int) == 0,
        forall|i: int|
            0 <= i < func.len() ==> !(#[trigger] func[i] == '(' && depth_before(func, i) == 0),
        lacks(unwind, ')'),
    ensures
        terminator_line(
            local_text(dst) + " = "@ + func + "("@ + args + ") -> [return: "@ + block_text(target)
                + ", "@ + unwind + "];"@,
            span,
        ) == Some(TerminatorView::Call { dst, func_text: func, target, span }),
{
    reveal_strlit(" = ");
    reveal_strlit("(");
    reveal_strlit(") -> [");
    reveal_strlit(") -> [return: ");
    reveal_strlit("return:");
    reveal_strlit("return: ");
    reveal_strlit(", ");
    reveal_strlit("];");
    reveal_strlit("]");
    reveal_strlit(";");
    reveal_strlit("return");
    reveal_strlit("unreachable");
    reveal_strlit("goto -> bb");
    local_is_read(dst);
    block_is_read(target);
    trim_stays(local_text(dst));
    let arrow = ") -> ["@;
    let call = func + "("@ + args + ")"@;
    reveal_strlit(")");
    let head = local_text(dst) + " = "@ + func + "("@ + args;
    let first = "return: "@ + block_text(target);
    let arms = first + ", "@ + unwind;
    let s = head + arrow + (arms + "]"@);
    assert(local_text(dst) + " = "@ + func + "("@ + args + ") -> [return: "@ + block_text(target)
        + ", "@ + unwind + "];"@ =~= s + ";"@);
    prefix_and_suffix_come_off(";"@, s);
    assert(s[0] == '_');
    assert("return"@[0] == 'r');
    assert("unreachable"@[0] == 'u');
    other_beginning(s, "goto -> bb"@, 0);
    let after = arms + "]"@;
    assert forall|i: int| 0 <= i < after.len() implies #[trigger] after[i] != ')' by {
        if i < 8 {
            assert(after[i] == "return: "@[i]);
        } else if i < first.len() {
            assert(after[i] == block_text(target)[i - 8]);
        } else if i < first.len() + 2 {
            assert(after[i] == ", "@[i - first.len()]);
        } else if i < arms.len() {
            assert(after[i] == unwind[i - first.len() - 2]);
        }
    }
    assert forall|j: int| 0 < j implies !#[trigger] occurs_at(arrow + after, arrow, j) by {
        let t = arrow + after;
        if occurs_at(t, arrow, j) {
            assert(t.subrange(j, j + 6)[0] == t[j]);
            if j >= 6 {
                assert(t[j] == after[j - 6]);
            }
        }
    }
    cut_last_at(head, arrow, after);
    prefix_and_suffix_come_off("]"@, arms);
    assert(head.push(')') =~= local_text(dst) + " = "@ + call);
    cut_behind(local_text(dst), " = "@, call);
    assert(call[0] == func[0]);
    assert(is_trim(call));
    trim_stays(call);
    function_ends_at_parenthesis(func, args);
    trim_stays(func);
    target_is_read(target, unwind);
    assert(call_terminator(s) == Some((dst, func, target)));
}

proof fn function_ends_at_parenthesis(func: Seq<char>, args: Seq<char>)
    requires
        func.len() > 0,
        depth_before(func, func.len() as int) == 0,
        forall|i: int|
            0 <= i < func.len() ==> !(#[trigger] func[i] == '(' && depth_before(func, i) == 0),
    ensures
        outer_from(func + "("@ + args + ")"@, '(', 0) == Some(func.len() as int),
        (func + "("@ + args + ")"@).take(func.len() as int) == func,
{
    reveal_strlit("(");
    let call = func + "("@ + args + ")"@;
    let n = func.len() as int;
    assert(call =~= func + ("("@ + args + ")"@));
    outer_is_the_first_outside(call, '(', 0);
    depth_of_front(func, "("@ + args + ")"@, n);
    assert(call[n] == '(');
    assert(call.take(n) =~= func);
    assert forall|j: int| 0 <= j < n implies !(#[trigger] call[j] == '(' && depth_before(call, j)
        == 0) by {
        depth_of_front(func, "("@ + args + ")"@, j);
        assert(call[j] == func[j]);
    }
    match outer_from(call, '(', 0) {
        Some(k) => {
            if k > n {
                assert(!(call[n] == '(' && depth_before(call, n) == 0));
            }
            if k < n {
                assert(!(call[k] == '(' && depth_before(call, k) == 0));
            }
        },
        None => {
            assert(!(call[n] == '(' && depth_before(call, n) == 0));
        },
    }
}

pub(crate) proof fn no_brackets_no_depth(s: Seq<char>, i: int)
    requires
        0 <= i <= s.len(),
        forall|k: int| 0 <= k < s.len() ==> nesting_at(s, k) == 0,
    ensures
        depth_before(s, i) == 0,
    decreases i,
{
    if i > 0 {
        no_brackets_no_depth(s, i - 1);
    }
}

proof fn target_is_read(target: BlockId, unwind: Seq<char>)
    ensures
        return_target(outer_pieces("return: "@ + block_text(target) + ", "@ + unwind, ','))
            == Some(target),
{
    reveal_strlit("return: ");
    reveal_strlit("return:");
    reveal_strlit(", ");
    reveal_strlit("bb");
    block_is_read(target);
    digits_of(target as nat);
    let first = "return: "@ + block_text(target);
    let rest = seq![' '] + unwind;
    assert(first + ", "@ + unwind =~= first.push(',') + rest);
    assert forall|k: int| 0 <= k < first.len() implies nesting_at(first, k) == 0 && first[k] != ',' by {
        if k >= 10 {
            assert(first[k] == decimal(target as nat)[k - 10]);
        }
    }
    no_brackets_no_depth(first, first.len() as int);
    assert(nesting_at(seq![','], 0) == 0);
    assert forall|j: int| !#[trigger] separates(first, ',', j) by {}
    outer_pieces_of_joined(first, ',', rest);
    let parts = seq![first] + outer_pieces(rest, ',');
    assert(parts[0] == first);
    assert(first.last() == block_text(target).last());
    trim_stays(first);
    assert(first =~= "return:"@ + (seq![' '] + block_text(target)));
    prefix_and_suffix_come_off("return:"@, seq![' '] + block_text(target));
    trim_stays(block_text(target));
}

// ---------------------------------------------------------------------------
// Statements
// ---------------------------------------------------------------------------

proof fn assignment_is_split(dst: LocalId, rhs: Seq<char>, span: Option<SpanView>)
    requires
        is_trim(rhs),
    ensures
        statement_line(local_text(dst) + " = "@ + rhs + ";"@, span) == assignment(dst, rhs, span),
{
    reveal_strlit(" = ");
    reveal_strlit(";");
    local_is_read(dst);
    trim_stays(local_text(dst));
    trim_stays(rhs);
    prefix_and_suffix_come_off(";"@, local_text(dst) + " = "@ + rhs);
    cut_behind(local_text(dst), " = "@, rhs);
}

/// A copy of a local is read back, taken as it is or through a reference.
pub proof fn copy_is_read(dst: LocalId, src: LocalId, span: Option<SpanView>)
    ensures
        statement_line(local_text(dst) + " = "@ + ("copy "@ + local_text(src)) + ";"@, span)
            == Some(StatementView::AssignCopy { dst, src, span }),
        statement_line(
            local_text(dst) + " = "@ + ("copy (*"@ + local_text(src) + ")"@) + ";"@,
            span,
        ) == Some(StatementView::AssignCopy { dst, src, span }),
{
    reveal_strlit("copy ");
    reveal_strlit("copy _");
    reveal_strlit("copy (*");
    reveal_strlit("copy (*_");
    reveal_strlit(")");
    reveal_strlit("_");
    let d = decimal(src as nat);
    digits_of(src as nat);
    local_is_read(src);
    let plain = "copy "@ + local_text(src);
    assert(plain =~= "copy _"@ + d);
    assert(plain.last() == d.last());
    prefix_and_suffix_come_off("copy _"@, d);
    assignment_is_split(dst, plain, span);
    let through = "copy (*"@ + local_text(src) + ")"@;
    assert(through.last() == ')');
    assert(through =~= "copy (*_"@ + (d + ")"@));
    prefix_and_suffix_come_off("copy (*_"@, d + ")"@);
    other_beginning(through, "copy _"@, 5);
    let none = Seq::<char>::empty();
    assert(d + ")"@ =~= d + ")"@ + none);
    cut_behind(d, ")"@, none);
    assignment_is_split(dst, through, span);
}

/// A constant is read back.
pub proof fn constant_is_read(dst: LocalId, value: bool, span: Option<SpanView>)
    ensures
        statement_line(
            local_text(dst) + " = "@ + (if value {
                "const true"@
            } else {
                "const false"@
            }) + ";"@,
            span,
        ) == Some(StatementView::AssignConstBool { dst, value, span }),
{
    reveal_strlit("const true");
    reveal_strlit("const false");
    reveal_strlit("const ");
    reveal_strlit("true");
    reveal_strlit("false");
    reveal_strlit("copy _");
    reveal_strlit("copy (*_");
    reveal_strlit("copy ");
    reveal_strlit("no_retag copy ");
    assert("const true"@ =~= "const "@ + "true"@);
    assert("const false"@ =~= "const "@ + "false"@);
    prefix_and_suffix_come_off("const "@, "true"@);
    prefix_and_suffix_come_off("const "@, "false"@);
    assert("true"@.len() != "false"@.len());
    let rhs = if value {
        "const true"@
    } else {
        "const false"@
    };
    other_beginning(rhs, "copy _"@, 2);
    other_beginning(rhs, "copy (*_"@, 2);
    other_beginning(rhs, "copy "@, 2);
    other_beginning(rhs, "no_retag copy "@, 0);
    assignment_is_split(dst, rhs, span);
}

proof fn discriminant_is_nothing_else(rest: Seq<char>)
    ensures
        copied_local("discriminant("@ + rest) is None,
        capture_read("discriminant("@ + rest) is None,
        const_bool("discriminant("@ + rest) is None,
        ("discriminant("@ + rest)[0] == 'd',
{
    reveal_strlit("discriminant(");
    reveal_strlit("copy _");
    reveal_strlit("copy (*_");
    reveal_strlit("copy ");
    reveal_strlit("no_retag copy ");
    reveal_strlit("const ");
    let rhs = "discriminant("@ + rest;
    assert(rhs[0] == 'd');
    other_beginning(rhs, "copy _"@, 0);
    other_beginning(rhs, "copy (*_"@, 0);
    other_beginning(rhs, "copy "@, 0);
    other_beginning(rhs, "no_retag copy "@, 0);
    other_beginning(rhs, "const "@, 0);
}

/// A read of a discriminant is read back, however the local is taken.
pub proof fn discriminant_is_read(
    dst: LocalId,
    how: Seq<char>,
    src: LocalId,
    span: Option<SpanView>,
)
    requires
        is_taking(how),
    ensures
        statement_line(
            local_text(dst) + " = "@ + ("discriminant("@ + (how + local_text(src)) + ")"@) + ";"@,
            span,
        ) == Some(StatementView::AssignDiscriminant { dst, src, span }),
{
    let token = how + local_text(src);
    token_is_read(how, src);
    let rhs = "discriminant("@ + (token + ")"@);
    assert("discriminant("@ + token + ")"@ =~= rhs);
    discriminant_is_taken_apart(dst, token, src, span);
    assignment_is_split(dst, rhs, span);
}

proof fn discriminant_is_taken_apart(
    dst: LocalId,
    token: Seq<char>,
    src: LocalId,
    span: Option<SpanView>,
)
    requires
        is_trim(token),
        local_token(token) == Some(src),
    ensures
        ({
            let rhs = "discriminant("@ + (token + ")"@);
            &&& is_trim(rhs)
            &&& assignment(dst, rhs, span) == Some(
                StatementView::AssignDiscriminant { dst, src, span },
            )
        }),
{
    let rhs = "discriminant("@ + (token + ")"@);
    trim_stays(token);
    prefix_and_suffix_come_off("discriminant("@, token + ")"@);
    prefix_and_suffix_come_off(")"@, token);
    discriminant_is_nothing_else(token + ")"@);
    assert(discriminant_of(rhs) == Some(src));
    assert(rhs.last() == ')') by {
        reveal_strlit(")");
    }
}

/// A downcast as it is written, behind `copy (`.
spec fn downcast_body(src: LocalId, variant: Seq<char>, field: u32, ty: Seq<char>) -> Seq<char> {
    (local_text(src) + " as "@ + variant) + ")"@ + ("."@ + (decimal(field as nat) + ":"@ + (seq![
        ' ',
    ] + ty)))
}

proof fn downcast_is_taken_apart(src: LocalId, variant: Seq<char>, field: u32, ty: Seq<char>)
    requires
        is_trim(variant),
        lacks(variant, ')'),
    ensures
        downcast("copy (("@ + (downcast_body(src, variant, field, ty) + ")"@)) == Some(
            (src, variant, field),
        ),
{
    reveal_strlit(" as ");
    reveal_strlit(")");
    reveal_strlit(".");
    reveal_strlit(":");
    local_is_read(src);
    digits_of(field as nat);
    trim_stays(local_text(src));
    trim_stays(variant);
    let f = decimal(field as nat);
    trim_stays(f);
    let head = local_text(src) + " as "@ + variant;
    let access = f + ":"@ + (seq![' '] + ty);
    let tail = "."@ + access;
    let body = downcast_body(src, variant, field, ty);
    prefix_and_suffix_come_off("copy (("@, body + ")"@);
    prefix_and_suffix_come_off(")"@, body);
    assert forall|i: int| 0 <= i < head.len() implies #[trigger] head[i] != ')' by {
        if i < local_text(src).len() {
            assert(head[i] == local_text(src)[i]);
        } else if i < local_text(src).len() + 4 {
            assert(head[i] == " as "@[i - local_text(src).len()]);
        } else {
            assert(head[i] == variant[i - local_text(src).len() - 4]);
        }
    }
    cut_behind(head, ")"@, tail);
    cut_behind(local_text(src), " as "@, variant);
    prefix_and_suffix_come_off("."@, access);
    assert forall|i: int| 0 <= i < f.len() implies #[trigger] f[i] != ':' by {}
    cut_behind(f, ":"@, seq![' '] + ty);
}

proof fn downcast_is_nothing_else(src: LocalId, variant: Seq<char>, field: u32, ty: Seq<char>)
    ensures
        ({
            let rhs = "copy (("@ + (downcast_body(src, variant, field, ty) + ")"@);
            &&& copied_local(rhs) is None
            &&& capture_read(rhs) is None
            &&& const_bool(rhs) is None
            &&& discriminant_of(rhs) is None
        }),
{
    reveal_strlit("copy ((");
    reveal_strlit(")");
    reveal_strlit("(");
    reveal_strlit("(*_");
    reveal_strlit("copy _");
    reveal_strlit("copy (*_");
    reveal_strlit("copy ");
    reveal_strlit("no_retag copy ");
    reveal_strlit("const ");
    reveal_strlit("discriminant(");
    local_is_read(src);
    let body = downcast_body(src, variant, field, ty);
    let rhs = "copy (("@ + (body + ")"@);
    other_beginning(rhs, "copy _"@, 5);
    other_beginning(rhs, "copy (*_"@, 6);
    other_beginning(rhs, "no_retag copy "@, 0);
    other_beginning(rhs, "const "@, 2);
    other_beginning(rhs, "discriminant("@, 0);
    let inner = "("@ + body;
    let place = "("@ + (inner + ")"@);
    assert(rhs =~= "copy "@ + place);
    prefix_and_suffix_come_off("copy "@, place);
    prefix_and_suffix_come_off("("@, inner + ")"@);
    prefix_and_suffix_come_off(")"@, inner);
    assert(body[0] == local_text(src)[0]);
    assert(inner[1] == body[0]);
    other_beginning(inner, "(*_"@, 1);
}

/// A downcast is read back: the local, the variant and the field. The variant
/// is any name; the type of the field may be anything.
pub proof fn downcast_is_read(
    dst: LocalId,
    src: LocalId,
    variant: Seq<char>,
    field: u32,
    ty: Seq<char>,
    span: Option<SpanView>,
)
    requires
        is_trim(variant),
        lacks(variant, ')'),
    ensures
        statement_line(
            local_text(dst) + " = "@ + ("copy (("@ + local_text(src) + " as "@ + variant + ")."@
                + decimal(field as nat) + ": "@ + ty + ")"@) + ";"@,
            span,
        ) == Some(StatementView::AssignDowncast { dst, src, variant, field, span }),
{
    reveal_strlit("copy ((");
    reveal_strlit(").");
    reveal_strlit(")");
    reveal_strlit(".");
    reveal_strlit(": ");
    reveal_strlit(":");
    let rhs = "copy (("@ + local_text(src) + " as "@ + variant + ")."@ + decimal(field as nat)
        + ": "@ + ty + ")"@;
    assert(rhs =~= "copy (("@ + (downcast_body(src, variant, field, ty) + ")"@));
    downcast_is_taken_apart(src, variant, field, ty);
    downcast_is_nothing_else(src, variant, field, ty);
    assert(rhs.last() == ')');
    assert(rhs[0] == 'c');
    assignment_is_split(dst, rhs, span);
}

pub(crate) proof fn env_field_is_read(env: LocalId, field: u32, ty: Seq<char>)
    requires
        is_trim(ty),
    ensures
        env_field("(*"@ + local_text(env) + ")."@ + decimal(field as nat) + ": "@ + ty) == Some(
            (env, field, ty),
        ),
{
    reveal_strlit("(*");
    reveal_strlit("(*_");
    reveal_strlit(").");
    reveal_strlit(")");
    reveal_strlit(".");
    reveal_strlit(": ");
    reveal_strlit(":");
    reveal_strlit("_");
    let e = decimal(env as nat);
    let f = decimal(field as nat);
    digits_of(env as nat);
    digits_of(field as nat);
    trim_stays(ty);
    let access = f + ":"@ + (seq![' '] + ty);
    let rest = e + ")"@ + ("."@ + access);
    assert("(*"@ + local_text(env) + ")."@ + f + ": "@ + ty =~= "(*_"@ + rest);
    prefix_and_suffix_come_off("(*_"@, rest);
    assert forall|i: int| 0 <= i < e.len() implies #[trigger] e[i] != ')' by {}
    cut_behind(e, ")"@, "."@ + access);
    prefix_and_suffix_come_off("."@, access);
    assert forall|i: int| 0 <= i < f.len() implies #[trigger] f[i] != ':' by {}
    cut_behind(f, ":"@, seq![' '] + ty);
}

/// A read of a captured variable is read back: the environment, the field,
/// and whether what it holds is a reference.
pub proof fn capture_read_is_read(
    dst: LocalId,
    retag: bool,
    env: LocalId,
    field: u32,
    ty: Seq<char>,
    span: Option<SpanView>,
)
    requires
        is_trim(ty),
    ensures
        statement_line(
            local_text(dst) + " = "@ + ((if retag {
                "copy "@
            } else {
                "no_retag copy "@
            }) + "("@ + ("(*"@ + local_text(env) + ")."@ + decimal(field as nat) + ": "@ + ty)
                + ")"@) + ";"@,
            span,
        ) == Some(
            StatementView::AssignCaptureRead { dst, env, field, holds_ref: ty[0] == '&', span },
        ),
{
    reveal_strlit("copy ");
    reveal_strlit("no_retag copy ");
    reveal_strlit("copy _");
    reveal_strlit("copy (*_");
    reveal_strlit("(");
    reveal_strlit(")");
    reveal_strlit("(*");
    reveal_strlit("&");
    let inner = "(*"@ + local_text(env) + ")."@ + decimal(field as nat) + ": "@ + ty;
    env_field_is_read(env, field, ty);
    let how = if retag {
        "copy "@
    } else {
        "no_retag copy "@
    };
    let place = "("@ + (inner + ")"@);
    let rhs = how + "("@ + inner + ")"@;
    assert(rhs =~= how + place);
    prefix_and_suffix_come_off(how, place);
    prefix_and_suffix_come_off("("@, inner + ")"@);
    prefix_and_suffix_come_off(")"@, inner);
    if retag {
        other_beginning(rhs, "no_retag copy "@, 0);
        other_beginning(rhs, "copy _"@, 5);
        assert(rhs[6] == inner[0]);
        other_beginning(rhs, "copy (*_"@, 6);
    } else {
        other_beginning(rhs, "copy _"@, 0);
        other_beginning(rhs, "copy (*_"@, 0);
    }
    if ty[0] == '&' {
        assert(ty =~= "&"@ + ty.skip(1));
        prefix_and_suffix_come_off("&"@, ty.skip(1));
    } else {
        other_beginning(ty, "&"@, 0);
    }
    assert(rhs.last() == ')');
    assert(rhs[0] == how[0]);
    assignment_is_split(dst, rhs, span);
}

/// An operand as it is written.
pub open spec fn operand_text(op: OperandView) -> Seq<char> {
    match op {
        OperandView::Copy(n) => "copy "@ + local_text(n),
        OperandView::Move(n) => "move "@ + local_text(n),
        OperandView::Const(literal) => "const "@ + literal,
    }
}

/// Whether an operand can stand in a list: brackets in a literal close, and
/// no comma in it stands outside them.
pub open spec fn is_listable(op: OperandView) -> bool {
    op matches OperandView::Const(literal) ==> {
        &&& is_trim(literal)
        &&& literal.last() != '-'
        &&& depth_before(literal, literal.len() as int) == 0
        &&& forall|j: int| !#[trigger] separates(literal, ',', j)
    }
}

/// The name of a comparison in a dump.
pub open spec fn operator_text(op: CompareOp) -> Seq<char> {
    match op {
        CompareOp::Eq => "Eq("@,
        CompareOp::Ne => "Ne("@,
        CompareOp::Lt => "Lt("@,
        CompareOp::Le => "Le("@,
        CompareOp::Gt => "Gt("@,
        CompareOp::Ge => "Ge("@,
    }
}

proof fn operand_is_read(op: OperandView)
    requires
        is_listable(op),
    ensures
        is_trim(operand_text(op)),
        operand(operand_text(op)) == Some(op),
        depth_before(operand_text(op), operand_text(op).len() as int) == 0,
        forall|j: int| !#[trigger] separates(operand_text(op), ',', j),
{
    reveal_strlit("copy ");
    reveal_strlit("move ");
    reveal_strlit("const ");
    reveal_strlit("copy _");
    reveal_strlit("move _");
    reveal_strlit("_");
    let s = operand_text(op);
    match op {
        OperandView::Copy(n) => {
            let d = decimal(n as nat);
            digits_of(n as nat);
            assert(s =~= "copy _"@ + d);
            prefix_and_suffix_come_off("copy _"@, d);
            assert(s.last() == d.last());
            assert forall|k: int| 0 <= k < s.len() implies nesting_at(s, k) == 0 && s[k] != ',' by {
                if k >= 6 {
                    assert(s[k] == d[k - 6]);
                }
            }
            no_brackets_no_depth(s, s.len() as int);
        },
        OperandView::Move(n) => {
            let d = decimal(n as nat);
            digits_of(n as nat);
            assert(s =~= "move _"@ + d);
            prefix_and_suffix_come_off("move _"@, d);
            other_beginning(s, "copy _"@, 0);
            assert(s.last() == d.last());
            assert forall|k: int| 0 <= k < s.len() implies nesting_at(s, k) == 0 && s[k] != ',' by {
                if k >= 6 {
                    assert(s[k] == d[k - 6]);
                }
            }
            no_brackets_no_depth(s, s.len() as int);
        },
        OperandView::Const(literal) => {
            prefix_and_suffix_come_off("const "@, literal);
            other_beginning(s, "copy _"@, 2);
            other_beginning(s, "move _"@, 0);
            assert(s.last() == literal.last());
            let p = "const "@;
            assert forall|k: int| 0 <= k < p.len() implies nesting_at(p, k) == 0 by {}
            no_brackets_no_depth(p, p.len() as int);
            depths_add_up(p, literal, literal.len() as int);
            assert forall|j: int| !#[trigger] separates(s, ',', j) by {
                if separates(s, ',', j) && j >= 6 {
                    assert(s[j] == literal[j - 6]);
                    depths_add_up(p, literal, j - 6);
                    assert(nesting_at(literal, j - 6) == 0);
                    assert(separates(literal, ',', j - 6));
                }
            }
        },
    }
}

proof fn operator_is_read(op: CompareOp, rest: Seq<char>)
    ensures
        comparison_head(operator_text(op) + rest) == Some((op, rest)),
        (operator_text(op) + rest).len() >= 3,
        (operator_text(op) + rest)[0] == operator_text(op)[0],
        operator_text(op)[0] != 'c',
        operator_text(op)[0] != 'n',
        operator_text(op)[0] != 'd',
        !is_space(operator_text(op)[0]),
{
    reveal_strlit("Eq(");
    reveal_strlit("Ne(");
    reveal_strlit("Lt(");
    reveal_strlit("Le(");
    reveal_strlit("Gt(");
    reveal_strlit("Ge(");
    let name = operator_text(op);
    let text = name + rest;
    prefix_and_suffix_come_off(name, rest);
    assert(text[0] == name[0] && text[1] == name[1]);
    match op {
        CompareOp::Eq => {},
        CompareOp::Ne => {
            other_beginning(text, "Eq("@, 0);
        },
        CompareOp::Le => {
            other_beginning(text, "Eq("@, 0);
            other_beginning(text, "Ne("@, 0);
        },
        CompareOp::Lt => {
            other_beginning(text, "Eq("@, 0);
            other_beginning(text, "Ne("@, 0);
            other_beginning(text, "Le("@, 1);
        },
        CompareOp::Ge => {
            other_beginning(text, "Eq("@, 0);
            other_beginning(text, "Ne("@, 0);
            other_beginning(text, "Le("@, 0);
            other_beginning(text, "Lt("@, 0);
        },
        CompareOp::Gt => {
            other_beginning(text, "Eq("@, 0);
            other_beginning(text, "Ne("@, 0);
            other_beginning(text, "Le("@, 0);
            other_beginning(text, "Lt("@, 0);
            other_beginning(text, "Ge("@, 1);
        },
    }
}

proof fn comparison_is_taken_apart(op: CompareOp, lhs: OperandView, rhs: OperandView)
    requires
        is_listable(lhs),
        is_listable(rhs),
    ensures
        comparison(
            operator_text(op) + (operand_text(lhs).push(',') + (seq![' '] + operand_text(rhs))
                + ")"@),
        ) == Some((op, lhs, rhs)),
{
    operand_is_read(lhs);
    operand_is_read(rhs);
    let (a, b) = (operand_text(lhs), operand_text(rhs));
    let inner = a.push(',') + (seq![' '] + b);
    operator_is_read(op, inner + ")"@);
    prefix_and_suffix_come_off(")"@, inner);
    assert(nesting_at(seq![','], 0) == 0);
    outer_pieces_of_joined(a, ',', seq![' '] + b);
    spaced_is_one_piece(b);
    let parts = seq![a] + seq![seq![' '] + b];
    assert(outer_pieces(inner, ',') == parts);
    assert(parts.len() == 2);
    assert(parts[0] == a && parts[1] == seq![' '] + b);
    trim_stays(a);
    trim_stays(b);
}

/// A comparison is read back: the operator and both operands.
pub proof fn comparison_is_read(
    dst: LocalId,
    op: CompareOp,
    lhs: OperandView,
    rhs: OperandView,
    span: Option<SpanView>,
)
    requires
        is_listable(lhs),
        is_listable(rhs),
    ensures
        statement_line(
            local_text(dst) + " = "@ + (operator_text(op) + operand_text(lhs) + ", "@
                + operand_text(rhs) + ")"@) + ";"@,
            span,
        ) == Some(StatementView::AssignBinaryCompare { dst, op, lhs, rhs, span }),
{
    reveal_strlit(", ");
    reveal_strlit(")");
    let rest = operand_text(lhs).push(',') + (seq![' '] + operand_text(rhs)) + ")"@;
    let text = operator_text(op) + operand_text(lhs) + ", "@ + operand_text(rhs) + ")"@;
    assert(text =~= operator_text(op) + rest);
    operator_is_read(op, rest);
    comparison_is_taken_apart(op, lhs, rhs);
    comparison_is_nothing_else(text);
    assert(text.last() == ')');
    assignment_is_split(dst, text, span);
}

proof fn comparison_is_nothing_else(text: Seq<char>)
    requires
        text.len() > 0,
        text[0] != 'c',
        text[0] != 'n',
        text[0] != 'd',
    ensures
        copied_local(text) is None,
        capture_read(text) is None,
        const_bool(text) is None,
        discriminant_of(text) is None,
        downcast(text) is None,
{
    reveal_strlit("copy _");
    reveal_strlit("copy (*_");
    reveal_strlit("copy ");
    reveal_strlit("no_retag copy ");
    reveal_strlit("const ");
    reveal_strlit("discriminant(");
    reveal_strlit("copy ((");
    other_beginning(text, "copy _"@, 0);
    other_beginning(text, "copy (*_"@, 0);
    other_beginning(text, "copy "@, 0);
    other_beginning(text, "copy (("@, 0);
    other_beginning(text, "no_retag copy "@, 0);
    other_beginning(text, "const "@, 0);
    other_beginning(text, "discriminant("@, 0);
}

pub(crate) proof fn spaced_is_one_piece(s: Seq<char>)
    requires
        depth_before(s, s.len() as int) == 0,
        forall|j: int| !#[trigger] separates(s, ',', j),
    ensures
        outer_pieces(seq![' '] + s, ',') == seq![seq![' '] + s],
        depth_before(seq![' '] + s, (s.len() + 1) as int) == 0,
        forall|j: int| !#[trigger] separates(seq![' '] + s, ',', j),
{
    let p = seq![' '];
    let t = p + s;
    assert(nesting_at(p, 0) == 0);
    no_brackets_no_depth(p, 1);
    depths_add_up(p, s, s.len() as int);
    assert forall|j: int| !#[trigger] separates(t, ',', j) by {
        if separates(t, ',', j) && j >= 1 {
            assert(t[j] == s[j - 1]);
            depths_add_up(p, s, j - 1);
            assert(nesting_at(s, j - 1) == 0);
            assert(separates(s, ',', j - 1));
        }
    }
    assert(nesting_at(seq![','], 0) == 0);
    outer_pieces_of_joined(t, ',', seq![]);
}

// ---------------------------------------------------------------------------
// What is read was written
// ---------------------------------------------------------------------------

/// A statement is read as what its right-hand side says: no other text is
/// taken for a copy, a constant, a discriminant, a downcast, a read of a
/// capture or a comparison.
pub proof fn statement_is_what_it_says(line: Seq<char>, span: Option<SpanView>)
    requires
        statement_line(line, span) is Some,
    ensures
        exists|place: Seq<char>, rhs: Seq<char>|
            {
                &&& line == #[trigger] (place + " = "@ + rhs + ";"@)
                &&& ({
                    let text = trimmed(rhs);
                    match statement_line(line, span)->0 {
                        StatementView::AssignCopy { dst, .. } => numbered(trimmed(place), "_"@)
                            == Some(dst) && (begins_with(text, "copy _"@) || begins_with(
                            text,
                            "copy (*_"@,
                        )),
                        StatementView::AssignConstBool { dst, value, .. } => numbered(
                            trimmed(place),
                            "_"@,
                        ) == Some(dst) && text == "const "@ + (if value {
                            "true"@
                        } else {
                            "false"@
                        }),
                        StatementView::AssignDiscriminant { dst, .. } => numbered(
                            trimmed(place),
                            "_"@,
                        ) == Some(dst) && begins_with(text, "discriminant("@),
                        StatementView::AssignDowncast { dst, .. } => numbered(
                            trimmed(place),
                            "_"@,
                        ) == Some(dst) && begins_with(text, "copy (("@),
                        StatementView::AssignCaptureRead { dst, .. } => numbered(
                            trimmed(place),
                            "_"@,
                        ) == Some(dst) && (begins_with(text, "copy "@) || begins_with(
                            text,
                            "no_retag copy "@,
                        )),
                        StatementView::AssignBinaryCompare { dst, op, .. } => numbered(
                            trimmed(place),
                            "_"@,
                        ) == Some(dst) && begins_with(text, operator_text(op)),
                        StatementView::Other { .. } => false,
                    }
                })
            },
{
    reveal_strlit(" = ");
    let s = before_suffix(line, ";"@)->0;
    crate::text::laws::prefix_and_suffix_were_there(line, ";"@);
    let (place, rhs) = cut_first(s, " = "@)->0;
    cuts_are_around_occurrences(s, " = "@);
    assert(line == place + " = "@ + rhs + ";"@);
    let text = trimmed(rhs);
    if const_bool(text) is Some {
        crate::text::laws::prefix_and_suffix_were_there(text, "const "@);
    }
}

/// A terminator is read as what it says: no other text is taken for a switch,
/// a jump, a return, the mark of an impossible path or a call.
pub proof fn terminator_is_what_it_says(line: Seq<char>, span: Option<SpanView>)
    requires
        terminator_line(line, span) is Some,
    ensures
        match terminator_line(line, span)->0 {
            TerminatorView::Return { span: s } => line == "return"@ + ";"@ && s == span,
            TerminatorView::Unreachable { span: s } => line == "unreachable"@ + ";"@ && s == span,
            TerminatorView::Goto { .. } => begins_with(line, "goto -> bb"@),
            TerminatorView::SwitchInt { .. } => begins_with(line, "switchInt("@),
            TerminatorView::Call { .. } => exists|a: Seq<char>, b: Seq<char>|
                line == #[trigger] (a + ") -> ["@ + b + "];"@),
            TerminatorView::Other { .. } => false,
        },
{
    let s = before_suffix(line, ";"@)->0;
    crate::text::laws::prefix_and_suffix_were_there(line, ";"@);
    assert(forall|p: Seq<char>| #[trigger] begins_with(s, p) ==> begins_with(line, p)) by {
        assert forall|p: Seq<char>| #[trigger] begins_with(s, p) implies begins_with(line, p) by {
            assert(line.take(p.len() as int) =~= s.take(p.len() as int));
        }
    }
    if let TerminatorView::Call { .. } = terminator_line(line, span)->0 {
        if s != "return"@ && s != "unreachable"@ && !begins_with(s, "goto -> bb"@)
            && call_terminator(s) is Some {
            reveal_strlit(") -> [");
            reveal_strlit("];");
            reveal_strlit("]");
            reveal_strlit(";");
            let (a, after) = cut_last(s, ") -> ["@)->0;
            cuts_are_around_occurrences(s, ") -> ["@);
            let b = before_suffix(after, "]"@)->0;
            crate::text::laws::prefix_and_suffix_were_there(after, "]"@);
            assert(line =~= a + ") -> ["@ + b + "];"@);
        }
    }
}

/// A literal is shown without its type, whatever its digits; one without a
/// type suffix is shown as it is.
pub proof fn literals_are_shown_without_their_type(value: Seq<char>, ty: Seq<char>)
    requires
        lacks(ty, '_'),
    ensures
        ({
            let shown = OperandView::Const(value + "_"@ + ty).display_value();
            let is_type = ty == "i8"@ || ty == "i16"@ || ty == "i32"@ || ty == "i64"@ || ty
                == "i128"@ || ty == "isize"@ || ty == "u8"@ || ty == "u16"@ || ty == "u32"@ || ty
                == "u64"@ || ty == "u128"@ || ty == "usize"@ || ty == "f16"@ || ty == "f32"@ || ty
                == "f64"@ || ty == "f128"@ || ty == "bool"@ || ty == "char"@;
            &&& is_type ==> shown == value
            &&& !is_type ==> shown == value + "_"@ + ty
        }),
        OperandView::Const(ty).display_value() == ty,
{
    reveal_strlit("_");
    assert forall|j: int| 0 < j implies !#[trigger] occurs_at("_"@ + ty, "_"@, j) by {
        let t = "_"@ + ty;
        if occurs_at(t, "_"@, j) {
            assert(t.subrange(j, j + 1)[0] == t[j]);
            assert(t[j] == ty[j - 1]);
        }
    }
    cut_last_at(value, "_"@, ty);
    lacking_is_no_occurrence(ty, "_"@, 0);
}

/// A line that ends in an arrow to a block, to a list of arms or to an unwind
/// action has the shape of a terminator, whatever it says before the arrow,
/// as long as its brackets close; so have the words that end a function.
pub proof fn arrows_make_terminators(s: Seq<char>, id: BlockId, arms: Seq<char>, action: Seq<char>)
    requires
        s.len() > 0,
        s.last() != '-',
        depth_before(s, s.len() as int) == 0,
    ensures
        terminator_shape(s + " -> "@ + block_text(id) + ";"@),
        terminator_shape(s + " -> "@ + ("["@ + arms + "]"@) + ";"@),
        terminator_shape(s + " -> "@ + ("unwind "@ + action) + ";"@),
        terminator_shape("resume"@ + ";"@),
        terminator_shape("abort"@ + ";"@),
        terminator_shape("coroutine_drop"@ + ";"@),
        terminator_shape("terminate("@ + (action + ")"@) + ";"@),
        terminator_shape("tailcall "@ + action + ";"@),
{
    block_is_read(id);
    arrow_leads_on(s, block_text(id));
    let list = "["@ + arms + "]"@;
    assert(list =~= "["@ + (arms + "]"@));
    prefix_and_suffix_come_off("["@, arms + "]"@);
    prefix_and_suffix_come_off("]"@, "["@ + arms);
    arrow_leads_on(s, list);
    prefix_and_suffix_come_off("unwind "@, action);
    arrow_leads_on(s, "unwind "@ + action);
    prefix_and_suffix_come_off(";"@, "resume"@);
    prefix_and_suffix_come_off(";"@, "abort"@);
    prefix_and_suffix_come_off(";"@, "coroutine_drop"@);
    prefix_and_suffix_come_off(";"@, "terminate("@ + (action + ")"@));
    prefix_and_suffix_come_off("terminate("@, action + ")"@);
    prefix_and_suffix_come_off(")"@, action);
    prefix_and_suffix_come_off(";"@, "tailcall "@ + action);
    prefix_and_suffix_come_off("tailcall "@, action);
}

proof fn arrow_leads_on(s: Seq<char>, target: Seq<char>)
    requires
        s.len() > 0,
        depth_before(s, s.len() as int) == 0,
        arrow_target(target),
    ensures
        terminator_shape(s + " -> "@ + target + ";"@),
{
    reveal_strlit(" -> ");
    let line = s + " -> "@ + target;
    let n = s.len() as int;
    prefix_and_suffix_come_off(";"@, line);
    assert(line =~= s + (" -> "@ + target));
    depth_of_front(s, " -> "@ + target, n);
    assert(line.subrange(n, n + 4) =~= " -> "@);
    assert(line.skip(n + 4) =~= target);
    assert(leads_on_at(line, n));
}

/// A line without an arrow is no terminator, unless it is one of the words
/// that end a function.
pub proof fn no_arrow_no_terminator(s: Seq<char>)
    requires
        forall|j: int| !#[trigger] occurs_at(s, " -> "@, j),
        s != "resume"@,
        s != "abort"@,
        s != "coroutine_drop"@,
        !begins_with(s, "terminate("@),
        !begins_with(s, "tailcall "@),
    ensures
        !terminator_shape(s + ";"@),
{
    prefix_and_suffix_come_off(";"@, s);
}

} // verus!
