//! Paths as text, with `/` between their components.
use crate::text::{
    chars_of, cut_last, cut_last_at, ends_in, ends_with, is_text, last_upto, last_upto_is_last,
    occurs_at, owned, rfind, rsplit_once, string_of,
};
use vstd::prelude::*;
use vstd::slice::slice_subrange;
use vstd::string::*;

verus! {

/// A path up to its last named component: separators and `.` components at
/// its end are left away.
pub open spec fn named_part(path: Seq<char>) -> Seq<char>
    decreases path.len(),
{
    if path.len() > 0 && (path.last() == '/' || ends_in(path, "/."@)) {
        named_part(path.drop_last())
    } else {
        path
    }
}

/// The position behind the last separator of a path.
pub open spec fn name_start(path: Seq<char>) -> int {
    match last_upto(path, "/"@, path.len() as int) {
        Some(i) => i + 1,
        None => 0,
    }
}

/// A file name without its extension, which begins at the last `.`. A `.` at
/// the front of the name begins no extension.
pub open spec fn stem_of(name: Seq<char>) -> Seq<char> {
    match cut_last(name, "."@) {
        Some((stem, _)) => if stem.len() > 0 {
            stem
        } else {
            name
        },
        None => name,
    }
}

/// The path of the `.mir` file beside a file: its path with the extension of
/// the file name, if it has one, replaced by `mir`. A path that ends in no
/// file name is left as it is.
pub open spec fn mir_beside(path: Seq<char>) -> Seq<char> {
    let named = named_part(path);
    let start = name_start(named);
    let name = named.skip(start);
    if name == ""@ || name == "."@ || name == ".."@ {
        path
    } else {
        named.take(start) + stem_of(name) + ".mir"@
    }
}

/// Leaves away the separators and `.` components at the end of a path.
fn trim_unnamed(path: &[char]) -> (r: &[char])
    ensures
        r@ == named_part(path@),
{
    let mut rest = path;
    while rest.len() > 0 && (rest[rest.len() - 1] == '/' || ends_with(rest, "/."))
        invariant
            named_part(rest@) == named_part(path@),
        decreases rest@.len(),
    {
        let len: usize = rest.len();
        let shorter = slice_subrange(rest, 0, len - 1);
        assert(shorter@ =~= rest@.drop_last());
        rest = shorter;
    }
    rest
}

/// The path of the `.mir` file beside a file.
pub fn mir_path_of(path: &str) -> (r: String)
    ensures
        r@ == mir_beside(path@),
{
    let chars = chars_of(path);
    let named = trim_unnamed(chars.as_slice());
    proof {
        reveal_strlit("/");
    }
    let len: usize = named.len();
    let start: usize = match rfind(named, "/") {
        Some(i) => i + 1,
        None => 0,
    };
    let name = slice_subrange(named, start, len);
    assert(name@ =~= named@.skip(start as int));
    if is_text(name, "") || is_text(name, ".") || is_text(name, "..") {
        return owned(path);
    }
    let stem = match rsplit_once(name, ".") {
        Some((stem, _)) => if stem.len() > 0 {
            stem
        } else {
            name
        },
        None => name,
    };
    let dir = slice_subrange(named, 0, start);
    assert(dir@ =~= named@.take(start as int));
    let mut out = string_of(dir);
    out.append(string_of(stem).as_str());
    out.append(".mir");
    assert(out@ =~= mir_beside(path@));
    out
}

// ---------------------------------------------------------------------------
// Laws
// ---------------------------------------------------------------------------

/// Whether a text holds no separator and no dot.
pub open spec fn is_plain_name(s: Seq<char>) -> bool {
    s.len() > 0 && forall|i: int| 0 <= i < s.len() ==> #[trigger] s[i] != '/' && s[i] != '.'
}

proof fn name_is_named(dir: Seq<char>, name: Seq<char>)
    requires
        name.len() > 0,
        forall|i: int| 0 <= i < name.len() ==> #[trigger] name[i] != '/',
        name.len() == 1 ==> name[0] != '.',
    ensures
        named_part(dir + "/"@ + name) == dir + "/"@ + name,
{
    let s = dir + "/"@ + name;
    assert(s.last() == name.last());
    assert(name.last() == name[name.len() - 1]);
    if ends_in(s, "/."@) {
        reveal_strlit("/.");
        let t = s.skip(s.len() - 2);
        assert(t[0] == s[s.len() - 2] && t[1] == s[s.len() - 1]);
        if name.len() > 1 {
            assert(s[s.len() - 2] == name[name.len() - 2]);
        }
    }
}

proof fn name_is_found(dir: Seq<char>, name: Seq<char>)
    requires
        name.len() > 0,
        forall|i: int| 0 <= i < name.len() ==> #[trigger] name[i] != '/',
    ensures
        name_start(dir + "/"@ + name) == dir.len() + 1,
        (dir + "/"@ + name).skip((dir.len() + 1) as int) == name,
        (dir + "/"@ + name).take((dir.len() + 1) as int) == dir + "/"@,
{
    reveal_strlit("/");
    let s = dir + "/"@ + name;
    let n = dir.len() as int;
    assert forall|j: int| 0 < j implies !#[trigger] occurs_at("/"@ + name, "/"@, j) by {
        let t = "/"@ + name;
        if occurs_at(t, "/"@, j) {
            assert(t.subrange(j, j + 1)[0] == t[j]);
            assert(t[j] == name[j - 1]);
        }
    }
    last_is_at(dir, "/"@, name);
    assert(s.skip(n + 1) =~= name);
    assert(s.take(n + 1) =~= dir + "/"@);
}

proof fn last_is_at(before: Seq<char>, p: Seq<char>, after: Seq<char>)
    requires
        p.len() == 1,
        forall|j: int| 0 < j ==> !#[trigger] occurs_at(p + after, p, j),
    ensures
        last_upto(before + p + after, p, (before + p + after).len() as int) == Some(
            before.len() as int,
        ),
{
    let s = before + p + after;
    let n = before.len() as int;
    last_upto_is_last(s, p, s.len() as int);
    assert(s.subrange(n, n + 1) =~= p);
    assert(occurs_at(s, p, n));
    let k = last_upto(s, p, s.len() as int)->0;
    if k > n {
        assert(s.subrange(k, k + 1) =~= (p + after).subrange(k - n, k - n + 1));
        assert(occurs_at(p + after, p, k - n));
    }
}

proof fn plain_name_stays(dir: Seq<char>, name: Seq<char>)
    requires
        is_plain_name(name),
    ensures
        mir_beside(dir + "/"@ + name) == dir + "/"@ + name + ".mir"@,
{
    assert(name[0] != '.' && name[0] != '/');
    assert forall|i: int| 0 <= i < name.len() implies #[trigger] name[i] != '/' by {}
    name_is_named(dir, name);
    name_is_found(dir, name);
    assert(name != "."@ && name != ".."@ && name != ""@) by {
        reveal_strlit(".");
        reveal_strlit("..");
        reveal_strlit("");
        assert("."@[0] == '.');
        assert(".."@[0] == '.');
    }
    reveal_strlit(".");
    last_upto_is_last(name, "."@, name.len() as int);
    if let Some(k) = last_upto(name, "."@, name.len() as int) {
        assert(name.subrange(k, k + 1)[0] == name[k]);
    }
}

proof fn extension_is_replaced(dir: Seq<char>, stem: Seq<char>, extension: Seq<char>)
    requires
        stem.len() > 0,
        forall|i: int| 0 <= i < stem.len() ==> #[trigger] stem[i] != '/',
        is_plain_name(extension),
    ensures
        mir_beside(dir + "/"@ + (stem + "."@ + extension)) == dir + "/"@ + stem + ".mir"@,
{
    reveal_strlit(".");
    let full = stem + "."@ + extension;
    assert forall|i: int| 0 <= i < full.len() implies #[trigger] full[i] != '/' by {
        if i < stem.len() {
            assert(full[i] == stem[i]);
        } else if i > stem.len() {
            assert(full[i] == extension[i - stem.len() - 1]);
        }
    }
    assert(full.last() == extension[extension.len() - 1]);
    name_is_named(dir, full);
    name_is_found(dir, full);
    assert(full != "."@ && full != ".."@ && full != ""@) by {
        reveal_strlit("..");
        reveal_strlit("");
        assert("."@.last() == '.');
        assert(".."@.last() == '.');
    }
    assert forall|j: int| 0 < j implies !#[trigger] occurs_at("."@ + extension, "."@, j) by {
        let t = "."@ + extension;
        if occurs_at(t, "."@, j) {
            assert(t.subrange(j, j + 1)[0] == t[j]);
            assert(t[j] == extension[j - 1]);
        }
    }
    cut_last_at(stem, "."@, extension);
}

/// The MIR file of a binary stands in the same directory: a name without an
/// extension gets `.mir`, and the extension of a name that has one is
/// replaced, however many dots stand before it.
pub proof fn mir_file_stands_beside_its_binary(
    dir: Seq<char>,
    name: Seq<char>,
    stem: Seq<char>,
    extension: Seq<char>,
)
    requires
        is_plain_name(name),
        stem.len() > 0,
        forall|i: int| 0 <= i < stem.len() ==> #[trigger] stem[i] != '/',
        is_plain_name(extension),
    ensures
        mir_beside(dir + "/"@ + name) == dir + "/"@ + name + ".mir"@,
        mir_beside(dir + "/"@ + (stem + "."@ + extension)) == dir + "/"@ + stem + ".mir"@,
{
    plain_name_stays(dir, name);
    extension_is_replaced(dir, stem, extension);
}

} // verus!
