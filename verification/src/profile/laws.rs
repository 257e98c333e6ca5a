//! What holds of every coverage export.
use crate::profile::{
    decoded_branch, decoded_branches, decoded_export, decoded_function, BranchView,
    RawFunctionView,
};
use vstd::prelude::*;

verus! {

/// What is encoded is decoded: an array that holds the entries of a branch in
/// their places, with anything behind them, is read as that branch.
pub proof fn encoded_branch_is_decoded(
    b: BranchView,
    filenames: Seq<Seq<char>>,
    file: i64,
    expanded: i64,
    more: Seq<i64>,
)
    requires
        0 <= file < filenames.len(),
        filenames[file as int] == b.span.file,
        b.true_count <= i64::MAX,
        b.false_count <= i64::MAX,
    ensures
        decoded_branch(
            seq![
                b.span.start_line as i64,
                b.span.start_col as i64,
                b.span.end_line as i64,
                b.span.end_col as i64,
                b.true_count as i64,
                b.false_count as i64,
                file,
                expanded,
                b.kind as i64,
            ] + more,
            filenames,
        ) == Some(b),
{
}

/// What is decoded was there: every entry of a branch stands in its place in
/// the array.
pub proof fn decoded_branch_was_encoded(region: Seq<i64>, filenames: Seq<Seq<char>>)
    ensures
        decoded_branch(region, filenames) matches Some(b) ==> {
            &&& region.len() >= 9
            &&& region[0] == b.span.start_line
            &&& region[1] == b.span.start_col
            &&& region[2] == b.span.end_line
            &&& region[3] == b.span.end_col
            &&& region[4] == b.true_count
            &&& region[5] == b.false_count
            &&& 0 <= region[6] < filenames.len()
            &&& filenames[region[6] as int] == b.span.file
            &&& region[8] == b.kind
        },
{
}

/// The branches of two lists of regions, one behind the other, are those of
/// the first and then those of the second; a single region gives its branch
/// if it is one of a branch, whose kind is 4, and nothing otherwise.
pub proof fn branches_of_joined_regions(
    s: Seq<Seq<i64>>,
    t: Seq<Seq<i64>>,
    filenames: Seq<Seq<char>>,
)
    ensures
        decoded_branches(s + t, filenames) == decoded_branches(s, filenames) + decoded_branches(
            t,
            filenames,
        ),
        s.len() == 1 ==> decoded_branches(s, filenames) == (match decoded_branch(s[0], filenames) {
            Some(b) => if b.kind == 4 {
                seq![b]
            } else {
                seq![]
            },
            None => seq![],
        }),
    decreases t.len(),
{
    if s.len() == 1 {
        assert(s.drop_last() =~= seq![]);
        assert(s.last() == s[0]);
        assert(decoded_branches(seq![], filenames) =~= seq![]);
        assert(decoded_branches(s, filenames) =~= (match decoded_branch(s[0], filenames) {
            Some(b) => if b.kind == 4 {
                seq![b]
            } else {
                seq![]
            },
            None => seq![],
        }));
    }
    if t.len() == 0 {
        assert(s + t =~= s);
        assert(decoded_branches(s, filenames) + decoded_branches(t, filenames) =~= decoded_branches(
            s,
            filenames,
        ));
    } else {
        assert((s + t).drop_last() =~= s + t.drop_last());
        assert((s + t).last() == t.last());
        branches_of_joined_regions(s, t.drop_last(), filenames);
        assert(decoded_branches(s + t, filenames) =~= decoded_branches(s, filenames)
            + decoded_branches(t, filenames));
    }
}

/// The functions of two exports, one behind the other, are those of the first
/// and then those of the second. One entry gives one function for each that
/// it holds, in order and under its name, with its count, its files and the
/// branches of its regions.
pub proof fn functions_of_joined_exports(
    s: Seq<Seq<RawFunctionView>>,
    t: Seq<Seq<RawFunctionView>>,
)
    ensures
        decoded_export(s + t) == decoded_export(s) + decoded_export(t),
        s.len() == 1 ==> decoded_export(s).len() == s[0].len(),
        s.len() == 1 ==> forall|i: int|
            0 <= i < s[0].len() ==> {
                let f = #[trigger] decoded_export(s)[i];
                &&& f.name == s[0][i].name
                &&& f.count == s[0][i].count
                &&& f.filenames == s[0][i].filenames
                &&& f.branches == decoded_branches(s[0][i].branches, s[0][i].filenames)
            },
    decreases t.len(),
{
    if s.len() == 1 {
        assert(s.drop_last() =~= seq![]);
        assert(s.last() == s[0]);
        assert(decoded_export(seq![]) =~= seq![]);
        assert(decoded_export(s) =~= s[0].map_values(|f: RawFunctionView| decoded_function(f)));
    }
    if t.len() == 0 {
        assert(s + t =~= s);
        assert(decoded_export(s) + decoded_export(t) =~= decoded_export(s));
    } else {
        assert((s + t).drop_last() =~= s + t.drop_last());
        assert((s + t).last() == t.last());
        functions_of_joined_exports(s, t.drop_last());
        assert(decoded_export(s + t) =~= decoded_export(s) + decoded_export(t));
    }
}

} // verus!
