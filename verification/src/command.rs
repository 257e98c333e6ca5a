//! What the tools are run with.
//!
//! An argument list holds fixed words, and values that the caller hands over
//! and the library only puts in their place: paths, and the name of a test.
use crate::instrument::RustcStep;
use vstd::prelude::*;
use vstd::string::*;

verus! {

/// An argument of a tool.
#[derive(Debug, Clone, PartialEq, Eq)]
pub enum Argument<P> {
    /// A fixed word.
    Word(&'static str),
    /// A value that the caller handed over.
    Given(P),
}

/// The model of an [`Argument`].
pub enum ArgumentView<P> {
    Word(Seq<char>),
    Given(P),
}

impl<P> View for Argument<P> {
    type V = ArgumentView<P>;

    open spec fn view(&self) -> ArgumentView<P> {
        match *self {
            Argument::Word(w) => ArgumentView::Word(w@),
            Argument::Given(p) => ArgumentView::Given(p),
        }
    }
}

/// The model of an argument list.
pub open spec fn arguments<P>(list: Seq<Argument<P>>) -> Seq<ArgumentView<P>> {
    Seq::new(list.len(), |i: int| list[i]@)
}

/// A list of fixed words.
pub open spec fn words<P>(list: Seq<Seq<char>>) -> Seq<ArgumentView<P>> {
    Seq::new(list.len(), |i: int| ArgumentView::Word(list[i]))
}

/// The arguments of rustc: the toolchain, the flags of the step, the file to
/// write and the source.
pub fn rustc_args<P>(step: &RustcStep, output: P, source: P) -> (r: Vec<Argument<P>>)
    ensures
        arguments(r@) == seq![ArgumentView::<P>::Word("+nightly"@)] + words(step.deep_view().flags)
            + seq![
            ArgumentView::Word("-o"@),
            ArgumentView::Given(output),
            ArgumentView::Given(source),
        ],
{
    let ghost flags = step.deep_view().flags;
    let mut out = vec![Argument::Word("+nightly")];
    let mut i: usize = 0;
    while i < step.flags.len()
        invariant
            i <= step.flags@.len(),
            flags == step.deep_view().flags,
            arguments(out@) == seq![ArgumentView::<P>::Word("+nightly"@)] + words(flags.take(i as int)),
        decreases step.flags@.len() - i,
    {
        let ghost before = arguments(out@);
        let word = step.flags[i];
        assert(word@ == flags[i as int]);
        out.push(Argument::Word(word));
        i += 1;
        assert(arguments(out@) =~= before.push(ArgumentView::Word(word@)));
        assert(words::<P>(flags.take(i as int)) =~= words::<P>(flags.take(i - 1)).push(
            ArgumentView::Word(word@),
        ));
        assert(arguments(out@) =~= seq![ArgumentView::<P>::Word("+nightly"@)] + words(
            flags.take(i as int),
        ));
    }
    assert(flags.take(i as int) =~= flags);
    out.push(Argument::Word("-o"));
    out.push(Argument::Given(output));
    out.push(Argument::Given(source));
    assert(arguments(out@) =~= seq![ArgumentView::<P>::Word("+nightly"@)] + words(flags) + seq![
        ArgumentView::Word("-o"@),
        ArgumentView::Given(output),
        ArgumentView::Given(source),
    ]);
    out
}

/// The arguments of cargo that have it describe a project.
pub fn metadata_args<P>(manifest: P) -> (r: Vec<Argument<P>>)
    ensures
        arguments(r@) == seq![
            ArgumentView::Word("+nightly"@),
            ArgumentView::Word("metadata"@),
            ArgumentView::Word("--no-deps"@),
            ArgumentView::Word("--format-version=1"@),
            ArgumentView::Word("--manifest-path"@),
            ArgumentView::Given(manifest),
        ],
{
    let out = vec![
        Argument::Word("+nightly"),
        Argument::Word("metadata"),
        Argument::Word("--no-deps"),
        Argument::Word("--format-version=1"),
        Argument::Word("--manifest-path"),
        Argument::Given(manifest),
    ];
    assert(arguments(out@) =~= seq![
        ArgumentView::Word("+nightly"@),
        ArgumentView::Word("metadata"@),
        ArgumentView::Word("--no-deps"@),
        ArgumentView::Word("--format-version=1"@),
        ArgumentView::Word("--manifest-path"@),
        ArgumentView::Given(manifest),
    ]);
    out
}

/// The arguments of cargo that have it build the test targets of a project
/// and report them as JSON.
pub fn build_args<P>(manifest: P) -> (r: Vec<Argument<P>>)
    ensures
        arguments(r@) == seq![
            ArgumentView::Word("+nightly"@),
            ArgumentView::Word("build"@),
            ArgumentView::Word("--tests"@),
            ArgumentView::Word("--message-format=json"@),
            ArgumentView::Word("--manifest-path"@),
            ArgumentView::Given(manifest),
        ],
{
    let out = vec![
        Argument::Word("+nightly"),
        Argument::Word("build"),
        Argument::Word("--tests"),
        Argument::Word("--message-format=json"),
        Argument::Word("--manifest-path"),
        Argument::Given(manifest),
    ];
    assert(arguments(out@) =~= seq![
        ArgumentView::Word("+nightly"@),
        ArgumentView::Word("build"@),
        ArgumentView::Word("--tests"@),
        ArgumentView::Word("--message-format=json"@),
        ArgumentView::Word("--manifest-path"@),
        ArgumentView::Given(manifest),
    ]);
    out
}

/// The arguments of rustc that have it name its installation.
pub fn sysroot_args<P>() -> (r: Vec<Argument<P>>)
    ensures
        arguments(r@) == words::<P>(seq!["+nightly"@, "--print=sysroot"@]),
{
    let out: Vec<Argument<P>> = vec![Argument::Word("+nightly"), Argument::Word("--print=sysroot")];
    assert(arguments(out@) =~= words::<P>(seq!["+nightly"@, "--print=sysroot"@]));
    out
}

/// The arguments of a test binary that have it list its tests.
pub fn list_args<P>() -> (r: Vec<Argument<P>>)
    ensures
        arguments(r@) == words::<P>(seq!["--list"@, "--format=terse"@]),
{
    let out: Vec<Argument<P>> = vec![Argument::Word("--list"), Argument::Word("--format=terse")];
    assert(arguments(out@) =~= words::<P>(seq!["--list"@, "--format=terse"@]));
    out
}

/// The arguments of a test binary that have it run a single test.
pub fn exact_args<P>(test: P) -> (r: Vec<Argument<P>>)
    ensures
        arguments(r@) == seq![ArgumentView::Word("--exact"@), ArgumentView::Given(test)],
{
    let out = vec![Argument::Word("--exact"), Argument::Given(test)];
    assert(arguments(out@) =~= seq![ArgumentView::Word("--exact"@), ArgumentView::Given(test)]);
    out
}

/// The arguments of `llvm-profdata` that have it merge a raw profile.
pub fn merge_args<P>(profraw: P, profdata: P) -> (r: Vec<Argument<P>>)
    ensures
        arguments(r@) == seq![
            ArgumentView::Word("merge"@),
            ArgumentView::Word("-sparse"@),
            ArgumentView::Given(profraw),
            ArgumentView::Word("-o"@),
            ArgumentView::Given(profdata),
        ],
{
    let out = vec![
        Argument::Word("merge"),
        Argument::Word("-sparse"),
        Argument::Given(profraw),
        Argument::Word("-o"),
        Argument::Given(profdata),
    ];
    assert(arguments(out@) =~= seq![
        ArgumentView::Word("merge"@),
        ArgumentView::Word("-sparse"@),
        ArgumentView::Given(profraw),
        ArgumentView::Word("-o"@),
        ArgumentView::Given(profdata),
    ]);
    out
}

/// The arguments of `llvm-cov` that have it export the coverage of a binary
/// as JSON.
pub fn export_args<P>(profdata: P, binary: P) -> (r: Vec<Argument<P>>)
    ensures
        arguments(r@) == seq![
            ArgumentView::Word("export"@),
            ArgumentView::Word("--format=text"@),
            ArgumentView::Word("--instr-profile"@),
            ArgumentView::Given(profdata),
            ArgumentView::Given(binary),
        ],
{
    let out = vec![
        Argument::Word("export"),
        Argument::Word("--format=text"),
        Argument::Word("--instr-profile"),
        Argument::Given(profdata),
        Argument::Given(binary),
    ];
    assert(arguments(out@) =~= seq![
        ArgumentView::Word("export"@),
        ArgumentView::Word("--format=text"@),
        ArgumentView::Word("--instr-profile"@),
        ArgumentView::Given(profdata),
        ArgumentView::Given(binary),
    ]);
    out
}

/// A list of words holds each of them, in order; a list of arguments is shown
/// argument by argument.
pub proof fn argument_lists_hold_every_argument<P>(
    list: Seq<Seq<char>>,
    args: Seq<Argument<P>>,
    i: int,
)
    ensures
        words::<P>(list).len() == list.len(),
        0 <= i < list.len() ==> words::<P>(list)[i] == ArgumentView::<P>::Word(list[i]),
        arguments(args).len() == args.len(),
        0 <= i < args.len() ==> (match args[i] {
            Argument::Word(w) => arguments(args)[i] == ArgumentView::<P>::Word(w@),
            Argument::Given(p) => arguments(args)[i] == ArgumentView::<P>::Given(p),
        }),
{
}

} // verus!
