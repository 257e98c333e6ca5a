//! Coverage data ingested from `llvm-cov export`.
//!
//! The JSON that `llvm-cov export --format=text` prints holds, per function,
//! a list of regions encoded by position:
//!
//! ```text
//! [start_line, start_col, end_line, end_col,
//!  true_counter, false_counter,
//!  file_id, expanded_file_id, kind]
//! ```
//!
//! [`RawExport`] is that JSON as plain values; [`report_of`] decodes it into
//! a [`CoverageReport`], which keeps the branch regions only.
use crate::mir::{SourceSpan, SpanView};
use crate::ordered::name_seq;
use vstd::prelude::*;
use vstd::string::*;

pub mod laws;

verus! {

/// A parsed coverage report.
#[derive(Debug, Clone)]
pub struct CoverageReport {
    /// Per-function coverage entries.
    pub functions: Vec<FunctionCoverage>,
}

/// The model of a [`CoverageReport`].
pub struct CoverageView {
    pub functions: Seq<FunctionCoverageView>,
}

impl DeepView for CoverageReport {
    type V = CoverageView;

    open spec fn deep_view(&self) -> CoverageView {
        CoverageView { functions: self.functions.deep_view() }
    }
}

impl Default for CoverageReport {
    fn default() -> (r: Self)
        ensures
            r.functions@ == Seq::<FunctionCoverage>::empty(),
    {
        CoverageReport { functions: Vec::new() }
    }
}

/// Coverage data for one function.
#[derive(Debug, Clone)]
pub struct FunctionCoverage {
    /// The function name as emitted by rustc (typically mangled).
    pub name: String,
    /// Number of times the function was entered.
    pub count: u64,
    /// Source file paths this function references.
    pub filenames: Vec<String>,
    /// Branch regions (one per atomic boolean condition). Only
    /// [`Branch::KIND_BRANCH`] entries are retained.
    pub branches: Vec<Branch>,
}

/// The model of a [`FunctionCoverage`].
#[verifier::ext_equal]
pub struct FunctionCoverageView {
    pub name: Seq<char>,
    pub count: u64,
    pub filenames: Seq<Seq<char>>,
    pub branches: Seq<BranchView>,
}

impl DeepView for FunctionCoverage {
    type V = FunctionCoverageView;

    open spec fn deep_view(&self) -> FunctionCoverageView {
        FunctionCoverageView {
            name: self.name@,
            count: self.count,
            filenames: name_seq(self.filenames@),
            branches: self.branches.deep_view(),
        }
    }
}

/// One branch region: typically one atomic boolean condition.
#[derive(Debug, Clone, PartialEq, Eq)]
pub struct Branch {
    /// Source location of the condition being tested.
    pub span: SourceSpan,
    /// Number of times the condition evaluated true.
    pub true_count: u64,
    /// Number of times the condition evaluated false.
    pub false_count: u64,
    /// Region kind. Branch regions are [`Self::KIND_BRANCH`] (`4`).
    pub kind: u32,
}

/// The model of a [`Branch`].
pub struct BranchView {
    pub span: SpanView,
    pub true_count: u64,
    pub false_count: u64,
    pub kind: u32,
}

impl DeepView for Branch {
    type V = BranchView;

    open spec fn deep_view(&self) -> BranchView {
        BranchView {
            span: self.span.deep_view(),
            true_count: self.true_count,
            false_count: self.false_count,
            kind: self.kind,
        }
    }
}

impl Branch {
    /// `kind` value LLVM uses for branch regions.
    pub const KIND_BRANCH: u32 = 4;
}

/// A parse error.
#[derive(Debug, Clone)]
pub struct ParseError {
    /// Human-readable description.
    pub message: String,
}

impl ParseError {
    /// The error of text that is no JSON of the expected shape, given what
    /// the JSON reader says of it.
    pub fn json(detail: &str) -> (r: ParseError)
        ensures
            r.message@ == "JSON: "@ + detail@,
    {
        let mut message = String::new();
        message.append("JSON: ");
        message.append(detail);
        assert(message@ =~= "JSON: "@ + detail@);
        ParseError { message }
    }

    /// The error as one line of text.
    pub fn to_string(&self) -> (r: String)
        ensures
            r@ == "coverage parse error: "@ + self.message@,
    {
        let mut out = String::new();
        out.append("coverage parse error: ");
        out.append(self.message.as_str());
        assert(out@ =~= "coverage parse error: "@ + self.message@);
        out
    }
}

// ---------------------------------------------------------------------------
// The export as plain values
// ---------------------------------------------------------------------------

/// The parts of an export that are read.
#[derive(Debug, Clone)]
pub struct RawExport {
    /// One entry per covered object.
    pub data: Vec<RawData>,
}

/// One entry of an export.
#[derive(Debug, Clone)]
pub struct RawData {
    /// The functions of the entry.
    pub functions: Vec<RawFunction>,
}

/// One function of an export.
#[derive(Debug, Clone)]
pub struct RawFunction {
    /// Symbol name.
    pub name: String,
    /// Execution count.
    pub count: u64,
    /// Source files, by position.
    pub filenames: Vec<String>,
    /// Regions, each encoded by position.
    pub branches: Vec<Vec<i64>>,
}

/// The model of a [`RawFunction`].
pub struct RawFunctionView {
    pub name: Seq<char>,
    pub count: u64,
    pub filenames: Seq<Seq<char>>,
    pub branches: Seq<Seq<i64>>,
}

impl DeepView for RawFunction {
    type V = RawFunctionView;

    open spec fn deep_view(&self) -> RawFunctionView {
        RawFunctionView {
            name: self.name@,
            count: self.count,
            filenames: name_seq(self.filenames@),
            branches: Seq::new(self.branches@.len(), |i: int| self.branches@[i]@),
        }
    }
}

impl DeepView for RawData {
    type V = Seq<RawFunctionView>;

    open spec fn deep_view(&self) -> Seq<RawFunctionView> {
        self.functions.deep_view()
    }
}

impl DeepView for RawExport {
    type V = Seq<Seq<RawFunctionView>>;

    open spec fn deep_view(&self) -> Seq<Seq<RawFunctionView>> {
        self.data.deep_view()
    }
}

// ---------------------------------------------------------------------------
// Decoding
// ---------------------------------------------------------------------------

/// Whether a number fits in 32 bits without sign.
pub open spec fn fits_u32(n: i64) -> bool {
    0 <= n <= u32::MAX
}

/// The region that an array encodes: it has at least nine entries, none of
/// those that are read is out of range, and it names one of the files.
pub open spec fn decoded_branch(region: Seq<i64>, filenames: Seq<Seq<char>>) -> Option<BranchView> {
    if region.len() >= 9 && fits_u32(region[0]) && fits_u32(region[1]) && fits_u32(region[2])
        && fits_u32(region[3]) && region[4] >= 0 && region[5] >= 0 && 0 <= region[6]
        < filenames.len() && fits_u32(region[8]) {
        Some(
            BranchView {
                span: SpanView {
                    file: filenames[region[6] as int],
                    start_line: region[0] as u32,
                    start_col: region[1] as u32,
                    end_line: region[2] as u32,
                    end_col: region[3] as u32,
                },
                true_count: region[4] as u64,
                false_count: region[5] as u64,
                kind: region[8] as u32,
            },
        )
    } else {
        None
    }
}

/// The branch regions among arrays; what is malformed or of another kind is
/// dropped.
pub open spec fn decoded_branches(regions: Seq<Seq<i64>>, filenames: Seq<Seq<char>>) -> Seq<
    BranchView,
>
    decreases regions.len(),
{
    if regions.len() == 0 {
        seq![]
    } else {
        let rest = decoded_branches(regions.drop_last(), filenames);
        match decoded_branch(regions.last(), filenames) {
            Some(b) => if b.kind == Branch::KIND_BRANCH {
                rest.push(b)
            } else {
                rest
            },
            None => rest,
        }
    }
}

/// The coverage of one function.
pub open spec fn decoded_function(raw: RawFunctionView) -> FunctionCoverageView {
    FunctionCoverageView {
        name: raw.name,
        count: raw.count,
        filenames: raw.filenames,
        branches: decoded_branches(raw.branches, raw.filenames),
    }
}

/// The coverage of all functions of an export, entry by entry.
pub open spec fn decoded_export(data: Seq<Seq<RawFunctionView>>) -> Seq<FunctionCoverageView>
    decreases data.len(),
{
    if data.len() == 0 {
        seq![]
    } else {
        decoded_export(data.drop_last()) + data.last().map_values(
            |f: RawFunctionView| decoded_function(f),
        )
    }
}

/// A 32-bit number without sign.
fn to_u32(n: i64) -> (r: Option<u32>)
    ensures
        r == if fits_u32(n) {
            Some(n as u32)
        } else {
            None
        },
{
    if 0 <= n && n <= u32::MAX as i64 {
        Some(n as u32)
    } else {
        None
    }
}

/// Decodes one positional branch array. Returns `None` if the array is
/// malformed (too short, a number out of range, or no such file).
fn convert_branch(region: &Vec<i64>, filenames: &Vec<String>) -> (r: Option<Branch>)
    ensures
        r.deep_view() == decoded_branch(region@, name_seq(filenames@)),
{
    if region.len() < 9 {
        return None;
    }
    let start_line: u32 = match to_u32(region[0]) {
        Some(n) => n,
        None => return None,
    };
    let start_col: u32 = match to_u32(region[1]) {
        Some(n) => n,
        None => return None,
    };
    let end_line: u32 = match to_u32(region[2]) {
        Some(n) => n,
        None => return None,
    };
    let end_col: u32 = match to_u32(region[3]) {
        Some(n) => n,
        None => return None,
    };
    if region[4] < 0 || region[5] < 0 || region[6] < 0 {
        return None;
    }
    let true_count: u64 = region[4] as u64;
    let false_count: u64 = region[5] as u64;
    let kind: u32 = match to_u32(region[8]) {
        Some(n) => n,
        None => return None,
    };
    let file_id: u64 = region[6] as u64;
    if file_id >= filenames.len() as u64 {
        return None;
    }
    let file = filenames[file_id as usize].clone();
    Some(
        Branch {
            span: SourceSpan { file, start_line, start_col, end_line, end_col },
            true_count,
            false_count,
            kind,
        },
    )
}

/// Decodes the coverage of one function.
fn convert_function(raw: &RawFunction) -> (r: FunctionCoverage)
    ensures
        r.deep_view() == decoded_function(raw.deep_view()),
{
    let ghost view = raw.deep_view();
    let mut branches: Vec<Branch> = Vec::new();
    let mut i: usize = 0;
    assert(branches.deep_view() =~= seq![]);
    assert(view.branches.take(0) =~= seq![]);
    while i < raw.branches.len()
        invariant
            i <= raw.branches@.len(),
            view == raw.deep_view(),
            branches.deep_view() == decoded_branches(
                view.branches.take(i as int),
                view.filenames,
            ),
        decreases raw.branches@.len() - i,
    {
        assert(view.branches.take(i + 1).drop_last() =~= view.branches.take(i as int));
        assert(view.branches.take(i + 1).last() == raw.branches@[i as int]@);
        if let Some(b) = convert_branch(&raw.branches[i], &raw.filenames) {
            if b.kind == Branch::KIND_BRANCH {
                let ghost before = branches.deep_view();
                branches.push(b);
                assert(branches.deep_view() =~= before.push(b.deep_view()));
            }
        }
        i += 1;
    }
    assert(view.branches.take(i as int) =~= view.branches);
    let filenames = raw.filenames.clone();
    assert(name_seq(filenames@) =~= view.filenames);
    FunctionCoverage { name: raw.name.clone(), count: raw.count, filenames, branches }
}

/// Decodes the functions of one entry behind those that are there.
fn convert_functions(data: &RawData, functions: &mut Vec<FunctionCoverage>)
    ensures
        final(functions).deep_view() == old(functions).deep_view() + data.deep_view().map_values(
            |f: RawFunctionView| decoded_function(f),
        ),
{
    let ghost before = functions.deep_view();
    let ghost decoded = data.deep_view().map_values(|f: RawFunctionView| decoded_function(f));
    let mut i: usize = 0;
    assert(before + decoded.take(0) =~= before);
    while i < data.functions.len()
        invariant
            i <= data.functions@.len(),
            decoded == data.deep_view().map_values(|f: RawFunctionView| decoded_function(f)),
            functions.deep_view() == before + decoded.take(i as int),
        decreases data.functions@.len() - i,
    {
        let ghost now = functions.deep_view();
        let f = convert_function(&data.functions[i]);
        assert(f.deep_view() == decoded[i as int]);
        functions.push(f);
        assert(functions.deep_view() =~= now.push(f.deep_view()));
        assert(now.push(f.deep_view()) =~= before + decoded.take(i + 1));
        i += 1;
    }
    assert(decoded.take(i as int) =~= decoded);
}

/// Decodes an export into a [`CoverageReport`].
///
/// All non-branch regions are filtered out; the `branches` collections of the
/// returned [`FunctionCoverage`] values contain only
/// [`Branch::KIND_BRANCH`] entries.
pub fn report_of(raw: &RawExport) -> (r: CoverageReport)
    ensures
        r.deep_view().functions == decoded_export(raw.deep_view()),
{
    let ghost view = raw.deep_view();
    let mut functions: Vec<FunctionCoverage> = Vec::new();
    let mut i: usize = 0;
    assert(functions.deep_view() =~= seq![]);
    assert(view.take(0) =~= seq![]);
    while i < raw.data.len()
        invariant
            i <= raw.data@.len(),
            view == raw.deep_view(),
            functions.deep_view() == decoded_export(view.take(i as int)),
        decreases raw.data@.len() - i,
    {
        assert(view.take(i + 1).drop_last() =~= view.take(i as int));
        assert(view.take(i + 1).last() == raw.data@[i as int].deep_view());
        convert_functions(&raw.data[i], &mut functions);
        i += 1;
    }
    assert(view.take(i as int) =~= view);
    CoverageReport { functions }
}

// ---------------------------------------------------------------------------
// Laws
// ---------------------------------------------------------------------------

/// Every branch that is kept is a branch region, and its file is one of the
/// function's files.
pub proof fn kept_branches_are_branch_regions(
    regions: Seq<Seq<i64>>,
    filenames: Seq<Seq<char>>,
    i: int,
)
    requires
        0 <= i < decoded_branches(regions, filenames).len(),
    ensures
        decoded_branches(regions, filenames)[i].kind == Branch::KIND_BRANCH,
        filenames.contains(decoded_branches(regions, filenames)[i].span.file),
    decreases regions.len(),
{
    let rest = decoded_branches(regions.drop_last(), filenames);
    if i < rest.len() {
        kept_branches_are_branch_regions(regions.drop_last(), filenames, i);
    } else {
        assert(filenames[regions.last()[6] as int] == decoded_branches(
            regions,
            filenames,
        )[i].span.file);
    }
}

} // verus!
