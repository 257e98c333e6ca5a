//! What holds of every text that is cut, read or compared.
use crate::text::{
    after_prefix, before_suffix, begins_with, closing_from, cut_first, cut_last,
    decimal, decimal_digits, depth_before, digits_value, ends_in, first_from, first_from_is_first,
    first_word, is_digit, is_space, last_upto, last_upto_is_last, leading_word, name_lt,
    nesting_at, number, number_u128, number_u32, occurs_at, outer_from, outer_pieces,
    outer_pieces_from, pieces, pieces_from, trimmed, trimmed_back, trimmed_front,
};
use vstd::arithmetic::power::{lemma_pow0, lemma_pow1, lemma_pow_adds, pow};
use vstd::prelude::*;

verus! {

// ---------------------------------------------------------------------------
// White space
// ---------------------------------------------------------------------------

/// Whether a text holds white space only.
pub open spec fn all_space(s: Seq<char>) -> bool {
    forall|i: int| 0 <= i < s.len() ==> is_space(#[trigger] s[i])
}

proof fn front_is_space(s: Seq<char>) -> (a: Seq<char>)
    ensures
        all_space(a),
        s == a + trimmed_front(s),
        trimmed_front(s).len() > 0 ==> !is_space(trimmed_front(s)[0]),
    decreases s.len(),
{
    if s.len() > 0 && is_space(s[0]) {
        let rest = front_is_space(s.skip(1));
        let a = seq![s[0]] + rest;
        assert(s =~= seq![s[0]] + s.skip(1));
        assert(s =~= a + trimmed_front(s));
        assert forall|i: int| 0 <= i < a.len() implies is_space(#[trigger] a[i]) by {
            if i > 0 {
                assert(is_space(rest[i - 1]));
            }
        }
        a
    } else {
        assert(s =~= Seq::<char>::empty() + s);
        seq![]
    }
}

proof fn back_is_space(s: Seq<char>) -> (b: Seq<char>)
    ensures
        all_space(b),
        s == trimmed_back(s) + b,
        trimmed_back(s).len() > 0 ==> !is_space(trimmed_back(s).last()),
    decreases s.len(),
{
    if s.len() > 0 && is_space(s.last()) {
        let rest = back_is_space(s.drop_last());
        let b = rest.push(s.last());
        assert(s =~= s.drop_last().push(s.last()));
        assert(s =~= trimmed_back(s) + b);
        assert forall|i: int| 0 <= i < b.len() implies is_space(#[trigger] b[i]) by {
            if i < rest.len() {
                assert(is_space(rest[i]));
            }
        }
        b
    } else {
        assert(s =~= s + Seq::<char>::empty());
        seq![]
    }
}

/// Trimming takes white space away at both ends, all of it and nothing else.
pub proof fn trimming_takes_white_space(s: Seq<char>)
    ensures
        exists|a: Seq<char>, b: Seq<char>|
            all_space(a) && all_space(b) && s == #[trigger] (a + trimmed(s) + b),
        trimmed(s).len() > 0 ==> !is_space(trimmed(s)[0]) && !is_space(trimmed(s).last()),
        exists|b: Seq<char>| all_space(b) && s == #[trigger] (trimmed_back(s) + b),
        trimmed_back(s).len() > 0 ==> !is_space(trimmed_back(s).last()),
{
    let a = front_is_space(s);
    let f = trimmed_front(s);
    let b = back_is_space(f);
    assert(s =~= a + trimmed(s) + b);
    if trimmed(s).len() > 0 {
        assert(trimmed(s)[0] == f[0]);
    }
    let c = back_is_space(s);
    assert(s == trimmed_back(s) + c);
}

/// Text without white space at its ends is kept, and white space around it is
/// taken away.
pub proof fn trimming_keeps_the_rest(a: Seq<char>, s: Seq<char>, b: Seq<char>)
    requires
        all_space(a),
        all_space(b),
        s.len() > 0 ==> !is_space(s[0]) && !is_space(s.last()),
    ensures
        trimmed(a + s + b) == s,
        s.len() > 0 ==> trimmed_back(s + b) == s,
    decreases a.len() + b.len(),
{
    if a.len() > 0 {
        let t = a + s + b;
        assert(t[0] == a[0]);
        assert(is_space(a[0]));
        assert(t.skip(1) =~= a.skip(1) + s + b);
        assert(trimmed_front(t) == trimmed_front(t.skip(1)));
        assert forall|i: int| 0 <= i < a.skip(1).len() implies is_space(#[trigger] a.skip(1)[i]) by {
            assert(is_space(a[i + 1]));
        }
        trimming_keeps_the_rest(a.skip(1), s, b);
    } else if s.len() == 0 {
        assert(a + s + b =~= b);
        blank_is_trimmed_away(b);
        assert(s =~= seq![]);
    } else {
        assert(a + s + b =~= s + b);
        assert((s + b)[0] == s[0]);
        assert(trimmed_front(s + b) == s + b);
        back_is_trimmed_away(s, b);
    }
    if s.len() > 0 {
        back_is_trimmed_away(s, b);
    }
}

proof fn blank_is_trimmed_away(b: Seq<char>)
    requires
        all_space(b),
    ensures
        trimmed_front(b) == Seq::<char>::empty(),
        trimmed(b) == Seq::<char>::empty(),
    decreases b.len(),
{
    if b.len() > 0 {
        assert(is_space(b[0]));
        assert forall|i: int| 0 <= i < b.skip(1).len() implies is_space(#[trigger] b.skip(1)[i]) by {
            assert(is_space(b[i + 1]));
        }
        blank_is_trimmed_away(b.skip(1));
    } else {
        assert(b =~= seq![]);
    }
}

proof fn back_is_trimmed_away(s: Seq<char>, b: Seq<char>)
    requires
        all_space(b),
        s.len() > 0,
        !is_space(s.last()),
    ensures
        trimmed_back(s + b) == s,
    decreases b.len(),
{
    if b.len() > 0 {
        assert((s + b).last() == b.last());
        assert(is_space(b[b.len() - 1]));
        assert((s + b).drop_last() =~= s + b.drop_last());
        assert forall|i: int| 0 <= i < b.drop_last().len() implies is_space(
            #[trigger] b.drop_last()[i],
        ) by {
            assert(is_space(b[i]));
        }
        back_is_trimmed_away(s, b.drop_last());
    } else {
        assert(s + b =~= s);
    }
}

/// The first word is what stands before the first white space behind the
/// white space in front.
pub proof fn first_word_ends_at_white_space(a: Seq<char>, word: Seq<char>, rest: Seq<char>)
    requires
        all_space(a),
        word.len() > 0,
        forall|i: int| 0 <= i < word.len() ==> !is_space(#[trigger] word[i]),
        rest.len() > 0 ==> is_space(rest[0]),
    ensures
        first_word(a + word + rest) == Some(word),
    decreases a.len(),
{
    let s = a + word + rest;
    if a.len() > 0 {
        assert(is_space(a[0]));
        assert(s[0] == a[0]);
        assert(s.skip(1) =~= a.skip(1) + word + rest);
        assert forall|i: int| 0 <= i < a.skip(1).len() implies is_space(#[trigger] a.skip(1)[i]) by {
            assert(is_space(a[i + 1]));
        }
        first_word_ends_at_white_space(a.skip(1), word, rest);
        assert(trimmed_front(s) == trimmed_front(s.skip(1)));
    } else {
        assert(s =~= word + rest);
        assert(s[0] == word[0]);
        assert(trimmed_front(s) == s);
        word_is_taken(word, rest);
    }
}

proof fn word_is_taken(word: Seq<char>, rest: Seq<char>)
    requires
        forall|i: int| 0 <= i < word.len() ==> !is_space(#[trigger] word[i]),
        rest.len() > 0 ==> is_space(rest[0]),
    ensures
        leading_word(word + rest) == word,
    decreases word.len(),
{
    let s = word + rest;
    if word.len() > 0 {
        assert(s[0] == word[0]);
        assert(s.skip(1) =~= word.skip(1) + rest);
        assert forall|i: int| 0 <= i < word.skip(1).len() implies !is_space(
            #[trigger] word.skip(1)[i],
        ) by {
            assert(!is_space(word[i + 1]));
        }
        word_is_taken(word.skip(1), rest);
        assert(leading_word(s) =~= word);
    } else {
        assert(s =~= rest);
        assert(leading_word(s) =~= word);
    }
}

// ---------------------------------------------------------------------------
// Prefixes, suffixes and cuts
// ---------------------------------------------------------------------------

/// What stands behind a prefix or before a suffix is what was put there.
pub proof fn prefix_and_suffix_come_off(p: Seq<char>, s: Seq<char>)
    ensures
        begins_with(p + s, p),
        ends_in(s + p, p),
        after_prefix(p + s, p) == Some(s),
        before_suffix(s + p, p) == Some(s),
{
    assert((p + s).take(p.len() as int) =~= p);
    assert((p + s).skip(p.len() as int) =~= s);
    assert((s + p).skip((s + p).len() - p.len()) =~= p);
    assert((s + p).take((s + p).len() - p.len()) =~= s);
}

/// What comes off was there: a text with a prefix or a suffix is made of it
/// and the rest.
pub proof fn prefix_and_suffix_were_there(s: Seq<char>, p: Seq<char>)
    ensures
        after_prefix(s, p) matches Some(rest) ==> s == p + rest,
        before_suffix(s, p) matches Some(rest) ==> s == rest + p,
{
    if begins_with(s, p) {
        assert(s =~= s.take(p.len() as int) + s.skip(p.len() as int));
    }
    if ends_in(s, p) {
        assert(s =~= s.take(s.len() - p.len()) + s.skip(s.len() - p.len()));
    }
}

/// A text is cut around an occurrence, at the first by one function and at
/// the last by the other, and not at all only where there is none.
pub proof fn cuts_are_around_occurrences(s: Seq<char>, p: Seq<char>)
    requires
        p.len() > 0,
    ensures
        match cut_first(s, p) {
            Some((a, b)) => s == a + p + b && (forall|j: int|
                0 <= j < a.len() ==> !#[trigger] occurs_at(s, p, j)),
            None => forall|j: int| !#[trigger] occurs_at(s, p, j),
        },
        match cut_last(s, p) {
            Some((a, b)) => s == a + p + b && (forall|j: int|
                a.len() < j ==> !#[trigger] occurs_at(s, p, j)),
            None => forall|j: int| !#[trigger] occurs_at(s, p, j),
        },
{
    first_from_is_first(s, p, 0);
    last_upto_is_last(s, p, s.len() as int);
    if let Some(k) = first_from(s, p, 0) {
        assert(s =~= s.take(k) + s.subrange(k, k + p.len()) + s.skip(k + p.len()));
    }
    if let Some(k) = last_upto(s, p, s.len() as int) {
        assert(s =~= s.take(k) + s.subrange(k, k + p.len()) + s.skip(k + p.len()));
    }
}

/// Texts with one separator between each two.
pub open spec fn with_separators(parts: Seq<Seq<char>>, sep: char) -> Seq<char>
    decreases parts.len(),
{
    if parts.len() == 0 {
        seq![]
    } else if parts.len() == 1 {
        parts[0]
    } else {
        parts[0].push(sep) + with_separators(parts.skip(1), sep)
    }
}

proof fn pieces_from_join(s: Seq<char>, sep: char, start: int, i: int)
    requires
        0 <= start <= i <= s.len(),
        forall|k: int| start <= k < i ==> s[k] != sep,
    ensures
        pieces_from(s, sep, start, i).len() > 0,
        with_separators(pieces_from(s, sep, start, i), sep) == s.skip(start),
        forall|k: int|
            0 <= k < pieces_from(s, sep, start, i).len() ==> !(#[trigger] pieces_from(
                s,
                sep,
                start,
                i,
            )[k]).contains(sep),
    decreases s.len() - i,
{
    let all = pieces_from(s, sep, start, i);
    if i >= s.len() {
        assert(s.subrange(start, s.len() as int) =~= s.skip(start));
        assert forall|k: int| 0 <= k < all.len() implies !(#[trigger] all[k]).contains(sep) by {
            assert(all[k] == s.skip(start));
            if all[k].contains(sep) {
                let q = choose|q: int| 0 <= q < all[k].len() && all[k][q] == sep;
                assert(s[start + q] == sep);
            }
        }
    } else if s[i] == sep {
        pieces_from_join(s, sep, i + 1, i + 1);
        let rest = pieces_from(s, sep, i + 1, i + 1);
        let first = s.subrange(start, i);
        assert(all.skip(1) =~= rest);
        assert(first.push(sep) + s.skip(i + 1) =~= s.skip(start));
        assert forall|k: int| 0 <= k < all.len() implies !(#[trigger] all[k]).contains(sep) by {
            if k == 0 {
                if first.contains(sep) {
                    let q = choose|q: int| 0 <= q < first.len() && first[q] == sep;
                    assert(s[start + q] == sep);
                }
            } else {
                assert(all[k] == rest[k - 1]);
            }
        }
    } else {
        pieces_from_join(s, sep, start, i + 1);
    }
}

/// Splitting is undone by joining: no piece holds the separator, and the
/// pieces with one separator between each two are the text.
pub proof fn splitting_is_undone_by_joining(s: Seq<char>, sep: char)
    ensures
        with_separators(pieces(s, sep), sep) == s,
        forall|k: int| 0 <= k < pieces(s, sep).len() ==> !(#[trigger] pieces(s, sep)[k]).contains(sep),
{
    pieces_from_join(s, sep, 0, 0);
    assert(s.skip(0) =~= s);
}

// ---------------------------------------------------------------------------
// Brackets
// ---------------------------------------------------------------------------

/// How many brackets are open in a text that stands behind another: those of
/// the first and those of the second, unless an arrow `->` lies across.
pub proof fn depths_add_up(x: Seq<char>, y: Seq<char>, i: int)
    requires
        0 <= i <= y.len(),
        x.len() == 0 || x.last() != '-',
    ensures
        depth_before(x + y, x.len() + i) == depth_before(x, x.len() as int) + depth_before(y, i),
    decreases i,
{
    if i > 0 {
        depths_add_up(x, y, i - 1);
        let k = x.len() + i - 1;
        assert((x + y)[k] == y[i - 1]);
        if i - 1 > 0 {
            assert((x + y)[k - 1] == y[i - 2]);
        } else if x.len() > 0 {
            assert((x + y)[k - 1] == x.last());
        }
        assert(nesting_at(x + y, k) == nesting_at(y, i - 1));
    } else {
        depth_of_front(x, y, x.len() as int);
    }
}

/// How many brackets are open depends only on what stands before.
pub proof fn depth_of_front(x: Seq<char>, y: Seq<char>, i: int)
    requires
        0 <= i <= x.len(),
    ensures
        depth_before(x + y, i) == depth_before(x, i),
    decreases i,
{
    if i > 0 {
        depth_of_front(x, y, i - 1);
        assert((x + y)[i - 1] == x[i - 1]);
        if i > 1 {
            assert((x + y)[i - 2] == x[i - 2]);
        }
    }
}

/// Whether a separator stands at `i` outside all brackets.
pub open spec fn separates(s: Seq<char>, sep: char, i: int) -> bool {
    0 <= i < s.len() && s[i] == sep && nesting_at(s, i) == 0 && depth_before(s, i) == 0
}

proof fn outer_pieces_start(s: Seq<char>, sep: char, start: int, i: int, k: int)
    requires
        0 <= start <= i <= k <= s.len(),
        k < s.len() ==> separates(s, sep, k),
        forall|j: int| i <= j < k ==> !#[trigger] separates(s, sep, j),
    ensures
        outer_pieces_from(s, sep, start, i, depth_before(s, i)) == (if k < s.len() {
            seq![s.subrange(start, k)] + outer_pieces_from(s, sep, k + 1, k + 1, 0)
        } else {
            seq![s.subrange(start, s.len() as int)]
        }),
    decreases k - i,
{
    if i < k {
        assert(!separates(s, sep, i));
        assert(depth_before(s, i + 1) == depth_before(s, i) + nesting_at(s, i));
        outer_pieces_start(s, sep, start, i + 1, k);
    }
}

proof fn outer_pieces_behind(x: Seq<char>, sep: char, y: Seq<char>, start: int, i: int, depth: int)
    requires
        0 <= start <= i <= y.len(),
        sep != '-',
    ensures
        ({
            let n = x.len() + 1;
            outer_pieces_from(x.push(sep) + y, sep, n + start, n + i, depth) == outer_pieces_from(
                y,
                sep,
                start,
                i,
                depth,
            )
        }),
    decreases y.len() - i,
{
    let s = x.push(sep) + y;
    let n = x.len() + 1;
    if i >= y.len() {
        assert(s.subrange(n + start, s.len() as int) =~= y.subrange(start, y.len() as int));
    } else {
        assert(s[n + i] == y[i]);
        if i > 0 {
            assert(s[n + i - 1] == y[i - 1]);
        } else {
            assert(s[n + i - 1] == sep);
        }
        assert(nesting_at(s, n + i) == nesting_at(y, i));
        if nesting_at(y, i) != 0 {
            outer_pieces_behind(x, sep, y, start, i + 1, depth + nesting_at(y, i));
        } else if y[i] == sep && depth == 0 {
            assert(s.subrange(n + start, n + i) =~= y.subrange(start, i));
            outer_pieces_behind(x, sep, y, i + 1, i + 1, depth);
        } else {
            outer_pieces_behind(x, sep, y, start, i + 1, depth);
        }
    }
}

/// A text is split at the separators outside all brackets and at no others:
/// text without such a separator is one piece, and what is joined by one is
/// that piece and the pieces of the rest.
pub proof fn outer_pieces_of_joined(x: Seq<char>, sep: char, y: Seq<char>)
    requires
        sep != '-',
        nesting_at(seq![sep], 0) == 0,
        depth_before(x, x.len() as int) == 0,
        forall|j: int| !#[trigger] separates(x, sep, j),
    ensures
        outer_pieces(x, sep) == seq![x],
        outer_pieces(x.push(sep) + y, sep) == seq![x] + outer_pieces(y, sep),
{
    assert(depth_before(x, 0) == 0);
    outer_pieces_start(x, sep, 0, 0, x.len() as int);
    assert(x.subrange(0, x.len() as int) =~= x);
    let s = x.push(sep) + y;
    let n = x.len() as int;
    assert(s =~= x + (seq![sep] + y));
    depth_of_front(x, seq![sep] + y, n);
    assert(s[n] == sep);
    assert(separates(s, sep, n));
    assert forall|j: int| 0 <= j < n implies !#[trigger] separates(s, sep, j) by {
        assert(s[j] == x[j]);
        if j > 0 {
            assert(s[j - 1] == x[j - 1]);
        }
        depth_of_front(x, seq![sep] + y, j);
        assert(nesting_at(s, j) == nesting_at(x, j));
        assert(!separates(x, sep, j));
    }
    assert(depth_before(s, 0) == 0);
    outer_pieces_start(s, sep, 0, 0, n);
    assert(s.subrange(0, n) =~= x);
    outer_pieces_behind(x, sep, y, 0, 0, 0);
}

/// The parenthesis that closes is the first `)` before which no bracket is
/// left open.
pub proof fn closing_is_the_first_outside(s: Seq<char>, i: int)
    requires
        0 <= i <= s.len(),
    ensures
        match closing_from(s, i, 1 + depth_before(s, i)) {
            Some(k) => i <= k < s.len() && s[k] == ')' && depth_before(s, k) == 0 && (forall|j: int|
                i <= j < k ==> !(#[trigger] s[j] == ')' && depth_before(s, j) == 0)),
            None => forall|j: int|
                i <= j < s.len() ==> !(#[trigger] s[j] == ')' && depth_before(s, j) == 0),
        },
    decreases s.len() - i,
{
    if i < s.len() && !(s[i] == ')' && depth_before(s, i) == 0) {
        assert(depth_before(s, i + 1) == depth_before(s, i) + nesting_at(s, i));
        closing_is_the_first_outside(s, i + 1);
    }
}

/// The first of a character outside all brackets is found.
pub proof fn outer_is_the_first_outside(s: Seq<char>, c: char, i: int)
    requires
        0 <= i <= s.len(),
    ensures
        match outer_from(s, c, i) {
            Some(k) => i <= k < s.len() && s[k] == c && depth_before(s, k) == 0 && (forall|j: int|
                i <= j < k ==> !(#[trigger] s[j] == c && depth_before(s, j) == 0)),
            None => forall|j: int|
                i <= j < s.len() ==> !(#[trigger] s[j] == c && depth_before(s, j) == 0),
        },
    decreases s.len() - i,
{
    if i < s.len() && !(s[i] == c && depth_before(s, i) == 0) {
        outer_is_the_first_outside(s, c, i + 1);
    }
}

// ---------------------------------------------------------------------------
// Numbers
// ---------------------------------------------------------------------------

/// Decimal digits are worth ten times as much for each digit behind them.
pub proof fn digits_are_positional(s: Seq<char>, t: Seq<char>)
    ensures
        digits_value(s + t) == digits_value(s) * pow(10, t.len()) + digits_value(t),
    decreases t.len(),
{
    if t.len() == 0 {
        assert(s + t =~= s);
        lemma_pow0(10);
        assert(digits_value(s) * 1 == digits_value(s));
    } else {
        let front = t.drop_last();
        assert((s + t).drop_last() =~= s + front);
        assert((s + t).last() == t.last());
        digits_are_positional(s, front);
        lemma_pow_adds(10, front.len(), 1);
        lemma_pow1(10);
        assert(t.len() == front.len() + 1);
        let (a, p, b) = (digits_value(s) as int, pow(10, front.len()), digits_value(front) as int);
        assert((a * p + b) * 10 == a * (p * 10) + b * 10) by (nonlinear_arith);
    }
}

/// A text is a number exactly if it is made of one or more decimal digits,
/// with at most one `+` before them; the `+` changes nothing, and the value
/// is that of the digits. Numbers that do not fit are none.
pub proof fn numbers_are_digits(s: Seq<char>)
    ensures
        number(s) is Some <==> {
            ||| s.len() > 0 && (forall|i: int| 0 <= i < s.len() ==> 48 <= (#[trigger] s[i] as u32) <= 57)
            ||| s.len() > 1 && s[0] == '+' && (forall|i: int|
                1 <= i < s.len() ==> 48 <= (#[trigger] s[i] as u32) <= 57)
        },
        number(s) is Some && s[0] != '+' ==> number(s) == Some(digits_value(s)) && number(
            seq!['+'] + s,
        ) == number(s),
        number_u32(s) == (match number(s) {
            Some(n) => if n < 0x1_0000_0000 {
                Some(n as u32)
            } else {
                None
            },
            None => None,
        }),
        number_u128(s) is Some ==> number(s) == Some(number_u128(s)->0 as nat),
        number(s) matches Some(n) ==> (n <= u128::MAX ==> number_u128(s) == Some(n as u128)),
        number(s) matches Some(n) ==> (n > u128::MAX ==> number_u128(s) is None),
        number(s) is None ==> number_u128(s) is None,
{
    if s.len() > 0 && s[0] == '+' {
        let digits = s.skip(1);
        if number(s) is Some {
            assert forall|i: int| 1 <= i < s.len() implies 48 <= (#[trigger] s[i] as u32) <= 57 by {
                assert(is_digit(digits[i - 1]));
            }
        }
        if forall|i: int| 1 <= i < s.len() ==> 48 <= (#[trigger] s[i] as u32) <= 57 {
            assert forall|i: int| 0 <= i < digits.len() implies is_digit(#[trigger] digits[i]) by {
                assert(48 <= (s[i + 1] as u32) <= 57);
            }
        }
    } else {
        assert((seq!['+'] + s).skip(1) =~= s);
        if number(s) is Some {
            assert forall|i: int| 0 <= i < s.len() implies 48 <= (#[trigger] s[i] as u32) <= 57 by {
                assert(is_digit(s[i]));
            }
        }
        if forall|i: int| 0 <= i < s.len() ==> 48 <= (#[trigger] s[i] as u32) <= 57 {
            assert forall|i: int| 0 <= i < s.len() implies is_digit(#[trigger] s[i]) by {}
        }
    }
}

/// Decimal notation has no leading zero.
pub proof fn decimal_has_no_leading_zero(n: nat)
    requires
        n > 0,
    ensures
        decimal(n)[0] != '0',
    decreases n,
{
    if n >= 10 {
        decimal_has_no_leading_zero(n / 10);
        decimal_digits(n / 10);
        assert(decimal(n)[0] == decimal(n / 10)[0]);
    } else {
        assert(decimal(n)[0] as u32 == n + 48);
    }
}

// ---------------------------------------------------------------------------
// Order
// ---------------------------------------------------------------------------

/// Names are ordered as words in a dictionary: by the code point of the first
/// character in which they differ, and a name before every longer one that
/// begins with it.
pub proof fn order_is_lexicographic(a: Seq<char>, b: Seq<char>)
    ensures
        name_lt(a, b) <==> exists|k: int|
            0 <= k <= a.len() && k <= b.len() && #[trigger] a.take(k) == b.take(k) && {
                ||| k == a.len() && k < b.len()
                ||| k < a.len() && k < b.len() && (a[k] as int) < (b[k] as int)
            },
    decreases a.len(),
{
    if a.len() > 0 && b.len() > 0 && a[0] == b[0] {
        let (x, y) = (a.skip(1), b.skip(1));
        order_is_lexicographic(x, y);
        if name_lt(x, y) {
            let k = choose|k: int|
                0 <= k <= x.len() && k <= y.len() && #[trigger] x.take(k) == y.take(k) && {
                    ||| k == x.len() && k < y.len()
                    ||| k < x.len() && k < y.len() && (x[k] as int) < (y[k] as int)
                };
            assert(a.take(k + 1) =~= seq![a[0]] + x.take(k));
            assert(b.take(k + 1) =~= seq![b[0]] + y.take(k));
            assert(a.take(k + 1) == b.take(k + 1));
        }
        if exists|k: int|
            0 <= k <= a.len() && k <= b.len() && #[trigger] a.take(k) == b.take(k) && {
                ||| k == a.len() && k < b.len()
                ||| k < a.len() && k < b.len() && (a[k] as int) < (b[k] as int)
            } {
            let k = choose|k: int|
                0 <= k <= a.len() && k <= b.len() && #[trigger] a.take(k) == b.take(k) && {
                    ||| k == a.len() && k < b.len()
                    ||| k < a.len() && k < b.len() && (a[k] as int) < (b[k] as int)
                };
            assert(k > 0);
            assert(x.take(k - 1) =~= a.take(k).skip(1));
            assert(y.take(k - 1) =~= b.take(k).skip(1));
            assert(x.take(k - 1) == y.take(k - 1));
        }
    } else {
        assert(a.take(0) =~= b.take(0));
        if exists|k: int|
            0 <= k <= a.len() && k <= b.len() && #[trigger] a.take(k) == b.take(k) && {
                ||| k == a.len() && k < b.len()
                ||| k < a.len() && k < b.len() && (a[k] as int) < (b[k] as int)
            } {
            let k = choose|k: int|
                0 <= k <= a.len() && k <= b.len() && #[trigger] a.take(k) == b.take(k) && {
                    ||| k == a.len() && k < b.len()
                    ||| k < a.len() && k < b.len() && (a[k] as int) < (b[k] as int)
                };
            if k > 0 {
                assert(a.take(k)[0] == a[0]);
                assert(b.take(k)[0] == b[0]);
            }
        }
    }
}

/// The four kinds of brackets open and close, and nothing else does; the `>`
/// of an arrow closes nothing.
pub proof fn brackets_open_and_close(s: Seq<char>, i: int)
    requires
        0 <= i < s.len(),
    ensures
        nesting_at(s, i) == 1 <==> s[i] == '(' || s[i] == '<' || s[i] == '[' || s[i] == '{',
        nesting_at(s, i) == -1 <==> s[i] == ')' || s[i] == ']' || s[i] == '}' || (s[i] == '>' && !(i
            > 0 && s[i - 1] == '-')),
        -1 <= nesting_at(s, i) <= 1,
        depth_before(s, 0) == 0,
        depth_before(s, i + 1) == depth_before(s, i) + nesting_at(s, i),
{
}

/// The white space of Unicode.
pub proof fn white_space_is_listed(c: char)
    ensures
        is_space(c) <==> ({
            let n = c as u32;
            (9 <= n <= 13) || n == 32 || n == 133 || n == 160 || n == 5760 || (8192 <= n <= 8202)
                || n == 8232 || n == 8233 || n == 8239 || n == 8287 || n == 12288
        }),
{
}

} // verus!
