//! Text as sequences of characters.
//!
//! The readers of this crate work on `&[char]` slices and their contracts on
//! `Seq<char>`. This module holds the vocabulary both sides share: trimming,
//! prefixes and suffixes, cutting at a pattern, nested separators, numbers in
//! decimal notation and the order of names.
use vstd::prelude::*;
use vstd::slice::slice_subrange;
use vstd::string::*;

pub mod laws;

verus! {

/// `String::push`: the documentation says that it appends the given
/// character to the end of the string; the contract claims exactly that.
pub assume_specification[ String::push ](s: &mut String, c: char)
    ensures
        final(s)@ == old(s)@.push(c),
;

// ---------------------------------------------------------------------------
// Conversions
// ---------------------------------------------------------------------------

/// The characters of `s`, in order.
pub fn chars_of(s: &str) -> (out: Vec<char>)
    ensures
        out@ == s@,
{
    let mut out: Vec<char> = Vec::new();
    for c in it: s.chars()
        invariant
            out@ == s@.take(it.index() as int),
            it.seq() == s@,
    {
        out.push(c);
    }
    out
}

/// The string made of the characters `s`.
pub fn string_of(s: &[char]) -> (out: String)
    ensures
        out@ == s@,
{
    let mut out = String::new();
    let mut i: usize = 0;
    while i < s.len()
        invariant
            i <= s@.len(),
            out@ == s@.take(i as int),
        decreases s@.len() - i,
    {
        out.push(s[i]);
        i += 1;
        assert(s@.take(i as int) =~= s@.take(i - 1).push(s@[i - 1]));
    }
    assert(s@.take(i as int) =~= s@);
    out
}

/// An owned copy of `s`.
pub fn owned(s: &str) -> (out: String)
    ensures
        out@ == s@,
{
    let mut out = String::new();
    out.append(s);
    assert(out@ =~= s@);
    out
}

/// Whether the characters `s` spell `p`.
pub fn is_text(s: &[char], p: &str) -> (b: bool)
    ensures
        b == (s@ == p@),
{
    let pat = chars_of(p);
    if s.len() != pat.len() {
        return false;
    }
    let mut i: usize = 0;
    while i < s.len()
        invariant
            i <= s@.len(),
            pat@ == p@,
            s@.len() == p@.len(),
            s@.take(i as int) == p@.take(i as int),
        decreases s@.len() - i,
    {
        if s[i] != pat[i] {
            assert(s@[i as int] != p@[i as int]);
            return false;
        }
        assert(s@.take(i + 1) =~= s@.take(i as int).push(s@[i as int]));
        assert(p@.take(i + 1) =~= p@.take(i as int).push(p@[i as int]));
        i += 1;
    }
    assert(s@.take(i as int) =~= s@);
    assert(p@.take(i as int) =~= p@);
    true
}

/// Whether two strings hold the same characters.
pub fn same_text(a: &str, b: &str) -> (r: bool)
    ensures
        r == (a@ == b@),
{
    let a = chars_of(a);
    is_text(a.as_slice(), b)
}

/// The characters of each slice of a sequence of slices.
pub open spec fn texts(v: Seq<&[char]>) -> Seq<Seq<char>> {
    Seq::new(v.len(), |i: int| v[i]@)
}

// ---------------------------------------------------------------------------
// White space
// ---------------------------------------------------------------------------

/// The characters with the Unicode property `White_Space`.
pub open spec fn is_space(c: char) -> bool {
    let n = c as u32;
    ||| 0x9 <= n <= 0xd
    ||| n == 0x20
    ||| n == 0x85
    ||| n == 0xa0
    ||| n == 0x1680
    ||| 0x2000 <= n <= 0x200a
    ||| n == 0x2028
    ||| n == 0x2029
    ||| n == 0x202f
    ||| n == 0x205f
    ||| n == 0x3000
}

/// Whether `c` is white space.
pub fn is_whitespace(c: char) -> (b: bool)
    ensures
        b == is_space(c),
{
    let n: u32 = c as u32;
    (0x9 <= n && n <= 0xd) || n == 0x20 || n == 0x85 || n == 0xa0 || n == 0x1680 || (0x2000 <= n
        && n <= 0x200a) || n == 0x2028 || n == 0x2029 || n == 0x202f || n == 0x205f || n == 0x3000
}

/// `s` without its leading white space.
pub open spec fn trimmed_front(s: Seq<char>) -> Seq<char>
    decreases s.len(),
{
    if s.len() > 0 && is_space(s[0]) {
        trimmed_front(s.skip(1))
    } else {
        s
    }
}

/// `s` without its trailing white space.
pub open spec fn trimmed_back(s: Seq<char>) -> Seq<char>
    decreases s.len(),
{
    if s.len() > 0 && is_space(s.last()) {
        trimmed_back(s.drop_last())
    } else {
        s
    }
}

/// `s` without the white space at both ends.
pub open spec fn trimmed(s: Seq<char>) -> Seq<char> {
    trimmed_back(trimmed_front(s))
}

/// Drops leading white space.
pub fn trim_start(s: &[char]) -> (r: &[char])
    ensures
        r@ == trimmed_front(s@),
{
    let mut i: usize = 0;
    assert(s@.skip(0) =~= s@);
    while i < s.len() && is_whitespace(s[i])
        invariant
            i <= s@.len(),
            trimmed_front(s@) == trimmed_front(s@.skip(i as int)),
        decreases s@.len() - i,
    {
        assert(s@.skip(i as int).skip(1) =~= s@.skip(i + 1));
        i += 1;
    }
    slice_subrange(s, i, s.len())
}

/// Drops trailing white space.
pub fn trim_end(s: &[char]) -> (r: &[char])
    ensures
        r@ == trimmed_back(s@),
{
    let mut n: usize = s.len();
    assert(s@.take(n as int) =~= s@);
    while n > 0 && is_whitespace(s[n - 1])
        invariant
            n <= s@.len(),
            trimmed_back(s@) == trimmed_back(s@.take(n as int)),
        decreases n,
    {
        assert(s@.take(n as int).drop_last() =~= s@.take(n - 1));
        n -= 1;
    }
    slice_subrange(s, 0, n)
}

/// Drops white space at both ends.
pub fn trim(s: &[char]) -> (r: &[char])
    ensures
        r@ == trimmed(s@),
{
    trim_end(trim_start(s))
}

/// The longest prefix of `s` that holds no white space.
pub open spec fn leading_word(s: Seq<char>) -> Seq<char>
    decreases s.len(),
{
    if s.len() == 0 || is_space(s[0]) {
        seq![]
    } else {
        seq![s[0]] + leading_word(s.skip(1))
    }
}

/// The first word of `s`, if `s` holds anything but white space.
pub open spec fn first_word(s: Seq<char>) -> Option<Seq<char>> {
    let word = leading_word(trimmed_front(s));
    if word.len() == 0 {
        None
    } else {
        Some(word)
    }
}

/// Takes the first word of `s`.
pub fn take_word(s: &[char]) -> (r: Option<&[char]>)
    ensures
        r is Some == first_word(s@) is Some,
        r matches Some(w) ==> w@ == first_word(s@)->0,
{
    let t = trim_start(s);
    let mut i: usize = 0;
    assert(t@.skip(0) =~= t@);
    assert(t@.take(0) + leading_word(t@) =~= leading_word(t@));
    while i < t.len() && !is_whitespace(t[i])
        invariant
            i <= t@.len(),
            leading_word(t@) == t@.take(i as int) + leading_word(t@.skip(i as int)),
        decreases t@.len() - i,
    {
        assert(t@.skip(i as int).skip(1) =~= t@.skip(i + 1));
        assert(t@.take(i as int) + (seq![t@[i as int]] + leading_word(t@.skip(i + 1))) =~= t@.take(
            i + 1,
        ) + leading_word(t@.skip(i + 1)));
        i += 1;
    }
    assert(leading_word(t@.skip(i as int)) =~= seq![]);
    assert(leading_word(t@) =~= t@.take(i as int));
    if i == 0 {
        None
    } else {
        Some(slice_subrange(t, 0, i))
    }
}

// ---------------------------------------------------------------------------
// Prefixes, suffixes and cuts
// ---------------------------------------------------------------------------

/// Whether `s` begins with `p`.
pub open spec fn begins_with(s: Seq<char>, p: Seq<char>) -> bool {
    p.len() <= s.len() && s.take(p.len() as int) == p
}

/// Whether `s` ends with `p`.
pub open spec fn ends_in(s: Seq<char>, p: Seq<char>) -> bool {
    p.len() <= s.len() && s.skip(s.len() - p.len()) == p
}

/// What follows the prefix `p` of `s`.
pub open spec fn after_prefix(s: Seq<char>, p: Seq<char>) -> Option<Seq<char>> {
    if begins_with(s, p) {
        Some(s.skip(p.len() as int))
    } else {
        None
    }
}

/// What precedes the suffix `p` of `s`.
pub open spec fn before_suffix(s: Seq<char>, p: Seq<char>) -> Option<Seq<char>> {
    if ends_in(s, p) {
        Some(s.take(s.len() - p.len()))
    } else {
        None
    }
}

/// Whether `p` stands in `s` at position `i`.
pub open spec fn occurs_at(s: Seq<char>, p: Seq<char>, i: int) -> bool {
    0 <= i && i + p.len() <= s.len() && s.subrange(i, i + p.len()) == p
}

/// The first position, not before `i`, at which `p` stands in `s`.
pub open spec fn first_from(s: Seq<char>, p: Seq<char>, i: int) -> Option<int>
    decreases s.len() + 1 - i,
{
    if i < 0 || i + p.len() > s.len() {
        None
    } else if occurs_at(s, p, i) {
        Some(i)
    } else {
        first_from(s, p, i + 1)
    }
}

/// The last position, not after `i`, at which `p` stands in `s`.
pub open spec fn last_upto(s: Seq<char>, p: Seq<char>, i: int) -> Option<int>
    decreases i + 1,
{
    if i < 0 {
        None
    } else if occurs_at(s, p, i) {
        Some(i)
    } else {
        last_upto(s, p, i - 1)
    }
}

/// `s` around the first occurrence of `p`.
pub open spec fn cut_first(s: Seq<char>, p: Seq<char>) -> Option<(Seq<char>, Seq<char>)> {
    match first_from(s, p, 0) {
        Some(i) => Some((s.take(i), s.skip(i + p.len()))),
        None => None,
    }
}

/// `s` around the last occurrence of `p`.
pub open spec fn cut_last(s: Seq<char>, p: Seq<char>) -> Option<(Seq<char>, Seq<char>)> {
    match last_upto(s, p, s.len() as int) {
        Some(i) => Some((s.take(i), s.skip(i + p.len()))),
        None => None,
    }
}

/// `first_from` finds an occurrence, none of the positions before it is one,
/// and it finds none only where there is none.
pub proof fn first_from_is_first(s: Seq<char>, p: Seq<char>, i: int)
    requires
        0 <= i,
    ensures
        match first_from(s, p, i) {
            Some(k) => i <= k && occurs_at(s, p, k) && forall|j: int|
                i <= j < k ==> !#[trigger] occurs_at(s, p, j),
            None => forall|j: int| i <= j ==> !#[trigger] occurs_at(s, p, j),
        },
    decreases s.len() + 1 - i,
{
    if i + p.len() <= s.len() && !occurs_at(s, p, i) {
        first_from_is_first(s, p, i + 1);
    }
}

/// `last_upto` finds an occurrence, none of the positions after it is one,
/// and it finds none only where there is none.
pub proof fn last_upto_is_last(s: Seq<char>, p: Seq<char>, i: int)
    requires
        -1 <= i,
    ensures
        match last_upto(s, p, i) {
            Some(k) => k <= i && occurs_at(s, p, k) && forall|j: int|
                k < j <= i ==> !#[trigger] occurs_at(s, p, j),
            None => forall|j: int| j <= i ==> !#[trigger] occurs_at(s, p, j),
        },
    decreases i + 1,
{
    if 0 <= i && !occurs_at(s, p, i) {
        last_upto_is_last(s, p, i - 1);
    }
}

/// `s` is cut at the last occurrence of `p`: behind it, where it overlaps the
/// rest too, `p` does not stand again.
pub proof fn cut_last_at(before: Seq<char>, p: Seq<char>, after: Seq<char>)
    requires
        forall|j: int| 0 < j ==> !#[trigger] occurs_at(p + after, p, j),
    ensures
        cut_last(before + p + after, p) == Some((before, after)),
{
    let s = before + p + after;
    let n = before.len() as int;
    last_upto_is_last(s, p, s.len() as int);
    assert(s.subrange(n, n + p.len()) =~= p);
    assert(occurs_at(s, p, n));
    let k = last_upto(s, p, s.len() as int)->0;
    if k > n {
        assert(s.subrange(k, k + p.len()) =~= (p + after).subrange(k - n, k - n + p.len()));
        assert(occurs_at(p + after, p, k - n));
    }
    assert(s.take(n) =~= before);
    assert(s.skip(n + p.len()) =~= after);
}

/// `s` is cut at the first occurrence of `p`: before it `p` does not stand.
pub proof fn cut_first_at(before: Seq<char>, p: Seq<char>, after: Seq<char>)
    requires
        forall|j: int|
            0 <= j < before.len() ==> !#[trigger] occurs_at(before + p + after, p, j),
    ensures
        cut_first(before + p + after, p) == Some((before, after)),
{
    let s = before + p + after;
    let n = before.len() as int;
    first_from_is_first(s, p, 0);
    assert(s.subrange(n, n + p.len()) =~= p);
    assert(occurs_at(s, p, n));
    assert(s.take(n) =~= before);
    assert(s.skip(n + p.len()) =~= after);
}

/// Whether `p` stands in `s` at position `i`.
pub fn stands_at(s: &[char], p: &[char], i: usize) -> (b: bool)
    requires
        i + p@.len() <= s@.len(),
    ensures
        b == occurs_at(s@, p@, i as int),
{
    let mut k: usize = 0;
    let len: usize = s.len();
    while k < p.len()
        invariant
            len == s@.len(),
            i + p@.len() <= s@.len(),
            k <= p@.len(),
            s@.subrange(i as int, i + k) == p@.take(k as int),
        decreases p@.len() - k,
    {
        if s[i + k] != p[k] {
            assert(s@.subrange(i as int, i + p@.len())[k as int] != p@[k as int]);
            return false;
        }
        assert(s@.subrange(i as int, i + k + 1) =~= s@.subrange(i as int, i + k).push(
            s@[i + k],
        ));
        assert(p@.take(k + 1) =~= p@.take(k as int).push(p@[k as int]));
        k += 1;
    }
    assert(p@.take(k as int) =~= p@);
    true
}

/// Whether `s` begins with `p`.
pub fn starts_with(s: &[char], p: &str) -> (b: bool)
    ensures
        b == begins_with(s@, p@),
{
    let pat = chars_of(p);
    if pat.len() > s.len() {
        return false;
    }
    let b = stands_at(s, pat.as_slice(), 0);
    assert(s@.subrange(0, p@.len() as int) =~= s@.take(p@.len() as int));
    b
}

/// Whether `s` ends with `p`.
pub fn ends_with(s: &[char], p: &str) -> (b: bool)
    ensures
        b == ends_in(s@, p@),
{
    let pat = chars_of(p);
    if pat.len() > s.len() {
        return false;
    }
    let b = stands_at(s, pat.as_slice(), s.len() - pat.len());
    assert(s@.subrange(s@.len() - p@.len(), s@.len() as int) =~= s@.skip(s@.len() - p@.len()));
    b
}

/// Takes the prefix `p` off `s`.
pub fn strip_prefix<'a>(s: &'a [char], p: &str) -> (r: Option<&'a [char]>)
    ensures
        r is Some == after_prefix(s@, p@) is Some,
        r matches Some(t) ==> t@ == after_prefix(s@, p@)->0,
{
    if starts_with(s, p) {
        let n: usize = chars_of(p).len();
        Some(slice_subrange(s, n, s.len()))
    } else {
        None
    }
}

/// Takes the suffix `p` off `s`.
pub fn strip_suffix<'a>(s: &'a [char], p: &str) -> (r: Option<&'a [char]>)
    ensures
        r is Some == before_suffix(s@, p@) is Some,
        r matches Some(t) ==> t@ == before_suffix(s@, p@)->0,
{
    if ends_with(s, p) {
        let n: usize = chars_of(p).len();
        Some(slice_subrange(s, 0, s.len() - n))
    } else {
        None
    }
}

/// The first position of `p` in `s`.
pub fn find(s: &[char], p: &str) -> (r: Option<usize>)
    ensures
        match r {
            Some(i) => first_from(s@, p@, 0) == Some(i as int) && i + p@.len() <= s@.len(),
            None => first_from(s@, p@, 0) is None,
        },
{
    let pat = chars_of(p);
    let mut i: usize = 0;
    loop
        invariant
            i <= s@.len(),
            pat@ == p@,
            first_from(s@, p@, 0) == first_from(s@, p@, i as int),
        decreases s@.len() - i,
    {
        if pat.len() > s.len() - i {
            return None;
        }
        if stands_at(s, pat.as_slice(), i) {
            return Some(i);
        }
        if i == s.len() {
            assert(first_from(s@, p@, i + 1) is None);
            return None;
        }
        i += 1;
    }
}

/// The last position of `p` in `s`.
pub fn rfind(s: &[char], p: &str) -> (r: Option<usize>)
    ensures
        match r {
            Some(i) => last_upto(s@, p@, s@.len() as int) == Some(i as int) && i + p@.len()
                <= s@.len(),
            None => last_upto(s@, p@, s@.len() as int) is None,
        },
{
    let pat = chars_of(p);
    let mut i: usize = s.len();
    loop
        invariant
            i <= s@.len(),
            pat@ == p@,
            last_upto(s@, p@, s@.len() as int) == last_upto(s@, p@, i as int),
        decreases i,
    {
        if pat.len() <= s.len() - i && stands_at(s, pat.as_slice(), i) {
            return Some(i);
        }
        if i == 0 {
            assert(last_upto(s@, p@, -1) is None);
            return None;
        }
        i -= 1;
    }
}

/// Cuts `s` at the first occurrence of `p`.
pub fn split_once<'a>(s: &'a [char], p: &str) -> (r: Option<(&'a [char], &'a [char])>)
    ensures
        r is Some == cut_first(s@, p@) is Some,
        r matches Some(t) ==> (t.0@, t.1@) == cut_first(s@, p@)->0,
{
    match find(s, p) {
        Some(i) => {
            let n: usize = chars_of(p).len();
            let len: usize = s.len();
            Some((slice_subrange(s, 0, i), slice_subrange(s, i + n, len)))
        },
        None => None,
    }
}

/// Cuts `s` at the last occurrence of `p`.
pub fn rsplit_once<'a>(s: &'a [char], p: &str) -> (r: Option<(&'a [char], &'a [char])>)
    ensures
        r is Some == cut_last(s@, p@) is Some,
        r matches Some(t) ==> (t.0@, t.1@) == cut_last(s@, p@)->0,
{
    match rfind(s, p) {
        Some(i) => {
            let n: usize = chars_of(p).len();
            let len: usize = s.len();
            Some((slice_subrange(s, 0, i), slice_subrange(s, i + n, len)))
        },
        None => None,
    }
}

// ---------------------------------------------------------------------------
// Separators
// ---------------------------------------------------------------------------

/// What stands between the separators `sep` of `s`, from position `i` on,
/// where the current piece began at `start`.
pub open spec fn pieces_from(s: Seq<char>, sep: char, start: int, i: int) -> Seq<Seq<char>>
    decreases s.len() - i,
{
    if i >= s.len() {
        seq![s.subrange(start, s.len() as int)]
    } else if s[i] == sep {
        seq![s.subrange(start, i)] + pieces_from(s, sep, i + 1, i + 1)
    } else {
        pieces_from(s, sep, start, i + 1)
    }
}

/// What stands between the separators `sep` of `s`.
pub open spec fn pieces(s: Seq<char>, sep: char) -> Seq<Seq<char>> {
    pieces_from(s, sep, 0, 0)
}

proof fn pieces_behind(x: Seq<char>, sep: char, y: Seq<char>, start: int, i: int)
    requires
        0 <= start <= i <= y.len(),
    ensures
        ({
            let n = x.len() + 1;
            pieces_from(x.push(sep) + y, sep, n + start, n + i) == pieces_from(y, sep, start, i)
        }),
    decreases y.len() - i,
{
    let s = x.push(sep) + y;
    let n = x.len() + 1;
    if i >= y.len() {
        assert(s.subrange(n + start, s.len() as int) =~= y.subrange(start, y.len() as int));
    } else {
        assert(s[n + i] == y[i]);
        if y[i] == sep {
            assert(s.subrange(n + start, n + i) =~= y.subrange(start, i));
            pieces_behind(x, sep, y, i + 1, i + 1);
        } else {
            pieces_behind(x, sep, y, start, i + 1);
        }
    }
}

proof fn pieces_around(x: Seq<char>, sep: char, y: Seq<char>, start: int, i: int)
    requires
        0 <= start <= i <= x.len(),
    ensures
        pieces_from(x.push(sep) + y, sep, start, i) == pieces_from(x, sep, start, i) + pieces(
            y,
            sep,
        ),
    decreases x.len() - i,
{
    let s = x.push(sep) + y;
    let rest = pieces(y, sep);
    if i >= x.len() {
        assert(s[i] == sep);
        assert(s.subrange(start, i) =~= x.subrange(start, x.len() as int));
        pieces_behind(x, sep, y, 0, 0);
    } else {
        assert(s[i] == x[i]);
        if x[i] == sep {
            assert(s.subrange(start, i) =~= x.subrange(start, i));
            pieces_around(x, sep, y, i + 1, i + 1);
            let first = seq![x.subrange(start, i)];
            let more = pieces_from(x, sep, i + 1, i + 1);
            assert(first + (more + rest) =~= (first + more) + rest);
        } else {
            pieces_around(x, sep, y, start, i + 1);
        }
    }
}

/// What is joined by a separator is split into the pieces of both parts.
pub proof fn pieces_of_joined(x: Seq<char>, sep: char, y: Seq<char>)
    ensures
        pieces(x.push(sep) + y, sep) == pieces(x, sep) + pieces(y, sep),
{
    pieces_around(x, sep, y, 0, 0);
}

/// Text without separator is one piece.
pub proof fn pieces_of_one(s: Seq<char>, sep: char, i: int)
    requires
        0 <= i,
        !s.contains(sep),
    ensures
        pieces_from(s, sep, 0, i) == seq![s],
    decreases s.len() - i,
{
    if i < s.len() {
        assert(s.contains(s[i]));
        pieces_of_one(s, sep, i + 1);
    } else {
        assert(s.subrange(0, s.len() as int) =~= s);
    }
}

/// Splits `s` at each `sep`.
pub fn split<'a>(s: &'a [char], sep: char) -> (r: Vec<&'a [char]>)
    ensures
        texts(r@) == pieces(s@, sep),
{
    let mut out: Vec<&'a [char]> = Vec::new();
    let mut start: usize = 0;
    let mut i: usize = 0;
    assert(texts(out@) + pieces(s@, sep) =~= pieces(s@, sep));
    while i < s.len()
        invariant
            start <= i <= s@.len(),
            pieces(s@, sep) == texts(out@) + pieces_from(s@, sep, start as int, i as int),
        decreases s@.len() - i,
    {
        if s[i] == sep {
            let ghost before = texts(out@);
            out.push(slice_subrange(s, start, i));
            assert(texts(out@) =~= before.push(s@.subrange(start as int, i as int)));
            assert(before + (seq![s@.subrange(start as int, i as int)] + pieces_from(
                s@,
                sep,
                i + 1,
                i + 1,
            )) =~= texts(out@) + pieces_from(s@, sep, i + 1, i + 1));
            start = i + 1;
        }
        i += 1;
    }
    let ghost before = texts(out@);
    out.push(slice_subrange(s, start, s.len()));
    assert(texts(out@) =~= before + seq![s@.subrange(start as int, s@.len() as int)]);
    out
}

/// Whether `c` opens a bracket.
pub open spec fn opens(c: char) -> bool {
    c == '(' || c == '<' || c == '[' || c == '{'
}

/// Whether `c` closes a bracket.
pub open spec fn closes(c: char) -> bool {
    c == ')' || c == '>' || c == ']' || c == '}'
}

/// How the character at `i` changes the depth of bracket nesting. The `>` of
/// an arrow `->` closes nothing.
pub open spec fn nesting_at(s: Seq<char>, i: int) -> int {
    if opens(s[i]) {
        1
    } else if closes(s[i]) && !(s[i] == '>' && i > 0 && s[i - 1] == '-') {
        -1
    } else {
        0
    }
}

/// How many brackets are open before position `i`.
pub open spec fn depth_before(s: Seq<char>, i: int) -> int
    decreases i,
{
    if i <= 0 {
        0
    } else {
        depth_before(s, i - 1) + nesting_at(s, i - 1)
    }
}

/// How the character at `i` changes the depth of bracket nesting.
pub fn nesting_of(s: &[char], i: usize) -> (d: i128)
    requires
        i < s@.len(),
    ensures
        d == nesting_at(s@, i as int),
        -1 <= d <= 1,
{
    let c: char = s[i];
    if c == '(' || c == '<' || c == '[' || c == '{' {
        1
    } else if c == '>' && i > 0 && s[i - 1] == '-' {
        0
    } else if c == ')' || c == '>' || c == ']' || c == '}' {
        -1
    } else {
        0
    }
}

/// What stands between the separators `sep` of `s` that lie at nesting depth
/// zero, from position `i` on, where the current piece began at `start` and
/// `depth` brackets are open.
pub open spec fn outer_pieces_from(
    s: Seq<char>,
    sep: char,
    start: int,
    i: int,
    depth: int,
) -> Seq<Seq<char>>
    decreases s.len() - i,
{
    if i >= s.len() {
        seq![s.subrange(start, s.len() as int)]
    } else if nesting_at(s, i) != 0 {
        outer_pieces_from(s, sep, start, i + 1, depth + nesting_at(s, i))
    } else if s[i] == sep && depth == 0 {
        seq![s.subrange(start, i)] + outer_pieces_from(s, sep, i + 1, i + 1, depth)
    } else {
        outer_pieces_from(s, sep, start, i + 1, depth)
    }
}

/// What stands between the separators `sep` of `s` that no bracket encloses.
pub open spec fn outer_pieces(s: Seq<char>, sep: char) -> Seq<Seq<char>> {
    outer_pieces_from(s, sep, 0, 0, 0)
}

/// Splits `s` on `sep` at top level, ignoring separators inside balanced
/// `()`, `<>`, `[]` or `{}`.
pub fn split_top_level<'a>(s: &'a [char], sep: char) -> (r: Vec<&'a [char]>)
    ensures
        texts(r@) == outer_pieces(s@, sep),
{
    let mut out: Vec<&'a [char]> = Vec::new();
    let mut start: usize = 0;
    let mut i: usize = 0;
    let mut depth: i128 = 0;
    assert(texts(out@) + outer_pieces(s@, sep) =~= outer_pieces(s@, sep));
    while i < s.len()
        invariant
            start <= i <= s@.len(),
            -i <= depth <= i,
            outer_pieces(s@, sep) == texts(out@) + outer_pieces_from(
                s@,
                sep,
                start as int,
                i as int,
                depth as int,
            ),
        decreases s@.len() - i,
    {
        let step: i128 = nesting_of(s, i);
        if step != 0 {
            depth = depth + step;
        } else if s[i] == sep && depth == 0 {
            let ghost before = texts(out@);
            out.push(slice_subrange(s, start, i));
            assert(texts(out@) =~= before.push(s@.subrange(start as int, i as int)));
            assert(before + (seq![s@.subrange(start as int, i as int)] + outer_pieces_from(
                s@,
                sep,
                i + 1,
                i + 1,
                0,
            )) =~= texts(out@) + outer_pieces_from(s@, sep, i + 1, i + 1, 0));
            start = i + 1;
        }
        i += 1;
    }
    let ghost before = texts(out@);
    out.push(slice_subrange(s, start, s.len()));
    assert(texts(out@) =~= before + seq![s@.subrange(start as int, s@.len() as int)]);
    out
}

/// The position, not before `i`, of the closing parenthesis that brings the
/// nesting depth to zero, where `depth` brackets are open.
pub open spec fn closing_from(s: Seq<char>, i: int, depth: int) -> Option<int>
    decreases s.len() - i,
{
    if i >= s.len() {
        None
    } else if s[i] == ')' && depth == 1 {
        Some(i)
    } else {
        closing_from(s, i + 1, depth + nesting_at(s, i))
    }
}

/// Finds the parenthesis that closes one opened just before `s`, honouring
/// nested `()`, `<>`, `[]` and `{}`.
pub fn find_matching_close(s: &[char]) -> (r: Option<usize>)
    ensures
        match r {
            Some(i) => closing_from(s@, 0, 1) == Some(i as int) && i < s@.len(),
            None => closing_from(s@, 0, 1) is None,
        },
{
    let mut i: usize = 0;
    let mut depth: i128 = 1;
    while i < s.len()
        invariant
            i <= s@.len(),
            1 - i <= depth <= i + 1,
            closing_from(s@, 0, 1) == closing_from(s@, i as int, depth as int),
        decreases s@.len() - i,
    {
        if s[i] == ')' && depth == 1 {
            return Some(i);
        }
        depth = depth + nesting_of(s, i);
        i += 1;
    }
    None
}

/// The first position, not before `i`, of `c` outside all brackets.
pub open spec fn outer_from(s: Seq<char>, c: char, i: int) -> Option<int>
    decreases s.len() - i,
{
    if i < 0 || i >= s.len() {
        None
    } else if s[i] == c && depth_before(s, i) == 0 {
        Some(i)
    } else {
        outer_from(s, c, i + 1)
    }
}

/// Finds the first `c` outside all brackets.
pub fn find_outer(s: &[char], c: char) -> (r: Option<usize>)
    ensures
        match r {
            Some(i) => outer_from(s@, c, 0) == Some(i as int) && i < s@.len(),
            None => outer_from(s@, c, 0) is None,
        },
{
    let mut i: usize = 0;
    let mut depth: i128 = 0;
    while i < s.len()
        invariant
            i <= s@.len(),
            -i <= depth <= i,
            depth == depth_before(s@, i as int),
            outer_from(s@, c, 0) == outer_from(s@, c, i as int),
        decreases s@.len() - i,
    {
        if s[i] == c && depth == 0 {
            return Some(i);
        }
        depth = depth + nesting_of(s, i);
        i += 1;
    }
    None
}

// ---------------------------------------------------------------------------
// Decimal numbers
// ---------------------------------------------------------------------------

/// Whether `c` is a decimal digit.
pub open spec fn is_digit(c: char) -> bool {
    '0' as u32 <= c as u32 <= '9' as u32
}

/// Whether `s` holds digits only.
pub open spec fn all_digits(s: Seq<char>) -> bool {
    forall|i: int| 0 <= i < s.len() ==> is_digit(#[trigger] s[i])
}

/// The number that decimal digits spell.
pub open spec fn digits_value(s: Seq<char>) -> nat
    decreases s.len(),
{
    if s.len() == 0 {
        0
    } else {
        digits_value(s.drop_last()) * 10 + (s.last() as u32 - '0' as u32) as nat
    }
}

/// The number that `s` spells in decimal, with at most one leading `+`.
pub open spec fn number(s: Seq<char>) -> Option<nat> {
    let digits = if s.len() > 0 && s[0] == '+' {
        s.skip(1)
    } else {
        s
    };
    if digits.len() > 0 && all_digits(digits) {
        Some(digits_value(digits))
    } else {
        None
    }
}

/// The number that `s` spells, if it fits in 32 bits.
pub open spec fn number_u32(s: Seq<char>) -> Option<u32> {
    match number(s) {
        Some(n) => if n <= u32::MAX {
            Some(n as u32)
        } else {
            None
        },
        None => None,
    }
}

/// The number that `s` spells, if it fits in 128 bits.
pub open spec fn number_u128(s: Seq<char>) -> Option<u128> {
    match number(s) {
        Some(n) => if n <= u128::MAX {
            Some(n as u128)
        } else {
            None
        },
        None => None,
    }
}

/// A prefix of digits spells no more than the whole.
proof fn prefix_value_is_no_larger(s: Seq<char>, i: int)
    requires
        0 <= i <= s.len(),
    ensures
        digits_value(s.take(i)) <= digits_value(s),
    decreases s.len(),
{
    if i == s.len() {
        assert(s.take(i) =~= s);
    } else {
        assert(s.drop_last().take(i) =~= s.take(i));
        prefix_value_is_no_larger(s.drop_last(), i);
    }
}

/// Reads an unsigned decimal number of at most `u128::MAX`.
pub fn parse_u128(s: &[char]) -> (r: Option<u128>)
    ensures
        r == number_u128(s@),
{
    let ghost all = if s@.len() > 0 && s@[0] == '+' {
        s@.skip(1)
    } else {
        s@
    };
    let digits = if s.len() > 0 && s[0] == '+' {
        slice_subrange(s, 1, s.len())
    } else {
        s
    };
    if digits.len() == 0 {
        return None;
    }
    let mut value: u128 = 0;
    let mut fits = true;
    let mut i: usize = 0;
    while i < digits.len()
        invariant
            i <= digits@.len(),
            digits@ == all,
            all == (if s@.len() > 0 && s@[0] == '+' {
                s@.skip(1)
            } else {
                s@
            }),
            forall|j: int| 0 <= j < i ==> is_digit(#[trigger] digits@[j]),
            fits ==> value == digits_value(digits@.take(i as int)),
            !fits ==> digits_value(digits@.take(i as int)) > u128::MAX,
        decreases digits@.len() - i,
    {
        let c: u32 = digits[i] as u32;
        if c < 48 || c > 57 {
            assert(!is_digit(digits@[i as int]));
            assert(!all_digits(all));
            return None;
        }
        let d: u128 = (c - 48) as u128;
        assert(digits@.take(i + 1).drop_last() =~= digits@.take(i as int));
        if fits {
            if value > (u128::MAX - d) / 10 {
                fits = false;
            } else {
                value = value * 10 + d;
            }
        }
        i += 1;
    }
    assert(digits@.take(i as int) =~= digits@);
    if fits {
        Some(value)
    } else {
        None
    }
}

/// Reads an unsigned decimal number of at most `u32::MAX`.
pub fn parse_u32(s: &[char]) -> (r: Option<u32>)
    ensures
        r == number_u32(s@),
{
    match parse_u128(s) {
        Some(v) => if v <= u32::MAX as u128 {
            Some(v as u32)
        } else {
            None
        },
        None => None,
    }
}

/// The character of the digit `d`.
pub open spec fn digit_char(d: nat) -> char {
    (d + '0' as u32) as char
}

/// `n` in decimal notation.
pub open spec fn decimal(n: nat) -> Seq<char>
    decreases n,
{
    if n < 10 {
        seq![digit_char(n)]
    } else {
        decimal(n / 10).push(digit_char(n % 10))
    }
}

/// Appends `n` in decimal notation.
pub fn push_decimal(out: &mut String, n: u128)
    ensures
        final(out)@ == old(out)@ + decimal(n as nat),
    decreases n,
{
    if n >= 10 {
        push_decimal(out, n / 10);
    }
    let d: u8 = (n % 10) as u8;
    out.push((48u8 + d) as char);
    assert(out@ =~= old(out)@ + decimal(n as nat));
}

/// What is spelt is read back: decimal notation is read as the number it
/// stands for.
pub proof fn decimal_reads_back(n: nat)
    ensures
        number(decimal(n)) == Some(n),
{
    decimal_digits(n);
    let s = decimal(n);
    assert(is_digit(s[0]));
}

/// Decimal notation holds digits only, at least one, and spells its number.
pub proof fn decimal_digits(n: nat)
    ensures
        decimal(n).len() > 0,
        all_digits(decimal(n)),
        digits_value(decimal(n)) == n,
    decreases n,
{
    if n < 10 {
        assert(decimal(n).drop_last() =~= seq![]);
        assert(digits_value(seq![]) == 0);
    } else {
        decimal_digits(n / 10);
        assert(decimal(n).drop_last() =~= decimal(n / 10));
        assert forall|i: int| 0 <= i < decimal(n).len() implies is_digit(
            #[trigger] decimal(n)[i],
        ) by {
            if i < decimal(n).len() - 1 {
                assert(decimal(n)[i] == decimal(n / 10)[i]);
            }
        }
    }
}

// ---------------------------------------------------------------------------
// The order of names
// ---------------------------------------------------------------------------

/// Lexicographic order by code point.
pub open spec fn name_lt(a: Seq<char>, b: Seq<char>) -> bool
    decreases a.len(),
{
    if b.len() == 0 {
        false
    } else if a.len() == 0 {
        true
    } else if a[0] != b[0] {
        (a[0] as int) < (b[0] as int)
    } else {
        name_lt(a.skip(1), b.skip(1))
    }
}

/// The code point of `c`.
fn code_point(c: char) -> (n: u32)
    ensures
        n == c as int,
{
    c as u32
}

/// Whether `a` comes before `b`.
pub fn name_before(a: &str, b: &str) -> (r: bool)
    ensures
        r == name_lt(a@, b@),
{
    let x = chars_of(a);
    let y = chars_of(b);
    let mut i: usize = 0;
    assert(x@.skip(0) =~= x@);
    assert(y@.skip(0) =~= y@);
    while i < x.len() && i < y.len()
        invariant
            i <= x@.len(),
            i <= y@.len(),
            x@ == a@,
            y@ == b@,
            name_lt(x@, y@) == name_lt(x@.skip(i as int), y@.skip(i as int)),
        decreases x@.len() - i,
    {
        if x[i] != y[i] {
            return code_point(x[i]) < code_point(y[i]);
        }
        assert(x@.skip(i as int).skip(1) =~= x@.skip(i + 1));
        assert(y@.skip(i as int).skip(1) =~= y@.skip(i + 1));
        i += 1;
    }
    i < y.len()
}

/// No name comes before itself.
pub proof fn name_lt_irreflexive(a: Seq<char>)
    ensures
        !name_lt(a, a),
    decreases a.len(),
{
    if a.len() > 0 {
        name_lt_irreflexive(a.skip(1));
    }
}

/// The order of names is transitive.
pub proof fn name_lt_transitive(a: Seq<char>, b: Seq<char>, c: Seq<char>)
    requires
        name_lt(a, b),
        name_lt(b, c),
    ensures
        name_lt(a, c),
    decreases a.len(),
{
    if a.len() > 0 && a[0] == b[0] && b[0] == c[0] {
        name_lt_transitive(a.skip(1), b.skip(1), c.skip(1));
    }
}

/// Of two distinct names one comes first.
pub proof fn name_lt_total(a: Seq<char>, b: Seq<char>)
    ensures
        a == b || name_lt(a, b) || name_lt(b, a),
    decreases a.len(),
{
    if a.len() == 0 || b.len() == 0 {
        if a.len() == 0 && b.len() == 0 {
            assert(a =~= b);
        }
    } else if a[0] == b[0] {
        name_lt_total(a.skip(1), b.skip(1));
        if a.skip(1) == b.skip(1) {
            assert(a =~= seq![a[0]] + a.skip(1));
            assert(b =~= seq![b[0]] + b.skip(1));
        }
    }
}

} // verus!
