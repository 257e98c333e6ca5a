//! The command line of `cargo floyd`.
use crate::text::{after_prefix, chars_of, same_text, string_of, strip_prefix};
use vstd::prelude::*;
use vstd::string::*;

pub mod laws;

verus! {

/// How a report is rendered.
#[derive(Debug, Copy, Clone, PartialEq, Eq, Structural)]
pub enum Format {
    /// Text for a terminal.
    Text,
    /// JSON.
    Json,
    /// JUnit XML.
    Junit,
}

/// The format with the given name, or what is wrong with the name.
pub open spec fn format_named(s: Seq<char>) -> Result<Format, Seq<char>> {
    if s == "text"@ {
        Ok(Format::Text)
    } else if s == "json"@ {
        Ok(Format::Json)
    } else if s == "junit"@ {
        Ok(Format::Junit)
    } else {
        Err("unknown --format value: "@ + s + " (expected text, json, or junit)"@)
    }
}

/// Reads the name of a format.
pub fn parse_format(s: &str) -> (r: Result<Format, String>)
    ensures
        match r {
            Ok(f) => format_named(s@) == Ok::<Format, Seq<char>>(f),
            Err(e) => format_named(s@) == Err::<Format, Seq<char>>(e@),
        },
{
    if same_text(s, "text") {
        Ok(Format::Text)
    } else if same_text(s, "json") {
        Ok(Format::Json)
    } else if same_text(s, "junit") {
        Ok(Format::Junit)
    } else {
        let mut message = String::new();
        message.append("unknown --format value: ");
        message.append(s);
        message.append(" (expected text, json, or junit)");
        assert(message@ =~= "unknown --format value: "@ + s@
            + " (expected text, json, or junit)"@);
        Err(message)
    }
}

/// What the command line asks for.
#[derive(Debug, Clone)]
pub struct Invocation {
    /// How the report is rendered.
    pub format: Format,
    /// Whether tests are run.
    pub test_mode: bool,
    /// The path argument, if one was given.
    pub path: Option<String>,
}

/// The model of an [`Invocation`].
pub struct InvocationView {
    pub format: Format,
    pub test_mode: bool,
    pub path: Option<Seq<char>>,
}

impl DeepView for Invocation {
    type V = InvocationView;

    open spec fn deep_view(&self) -> InvocationView {
        InvocationView {
            format: self.format,
            test_mode: self.test_mode,
            path: self.path.deep_view(),
        }
    }
}

/// The format options of some arguments, and the arguments that are none,
/// behind those already in `positional`. The last format counts. A format
/// that is unknown, or a `--format` with nothing behind it, is an error.
pub open spec fn sorted_out(
    args: Seq<Seq<char>>,
    format: Format,
    positional: Seq<Seq<char>>,
) -> Result<(Format, Seq<Seq<char>>), Seq<char>>
    decreases args.len(),
{
    if args.len() == 0 {
        Ok((format, positional))
    } else {
        match after_prefix(args[0], "--format="@) {
            Some(name) => match format_named(name) {
                Ok(f) => sorted_out(args.skip(1), f, positional),
                Err(e) => Err(e),
            },
            None => if args[0] == "--format"@ {
                if args.len() < 2 {
                    Err("--format requires a value"@)
                } else {
                    match format_named(args[1]) {
                        Ok(f) => sorted_out(args.skip(2), f, positional),
                        Err(e) => Err(e),
                    }
                }
            } else {
                sorted_out(args.skip(1), format, positional.push(args[0]))
            },
        }
    }
}

/// What positional arguments ask for: the word `test` first, if it is there,
/// then a path.
pub open spec fn invoked(format: Format, positional: Seq<Seq<char>>) -> InvocationView {
    let test_mode = positional.len() > 0 && positional[0] == "test"@;
    let rest = if test_mode {
        positional.skip(1)
    } else {
        positional
    };
    InvocationView {
        format,
        test_mode,
        path: if rest.len() > 0 {
            Some(rest[0])
        } else {
            None
        },
    }
}

/// What a command line asks for. Cargo hands a subcommand its own name as the
/// first argument; it counts for nothing.
pub open spec fn invocation_of(raw: Seq<Seq<char>>) -> Result<InvocationView, Seq<char>> {
    let args = if raw.len() > 0 && raw[0] == "floyd"@ {
        raw.skip(1)
    } else {
        raw
    };
    match sorted_out(args, Format::Text, seq![]) {
        Ok((format, positional)) => Ok(invoked(format, positional)),
        Err(e) => Err(e),
    }
}

/// Reads the command line, without the program's own name.
pub fn parse_args(raw: &Vec<String>) -> (r: Result<Invocation, String>)
    ensures
        match r {
            Ok(i) => invocation_of(raw.deep_view()) == Ok::<InvocationView, Seq<char>>(
                i.deep_view(),
            ),
            Err(e) => invocation_of(raw.deep_view()) == Err::<InvocationView, Seq<char>>(e@),
        },
{
    let ghost all = raw.deep_view();
    let count: usize = raw.len();
    let mut i: usize = 0;
    if count > 0 && same_text(raw[0].as_str(), "floyd") {
        i = 1;
    }
    let ghost args = if all.len() > 0 && all[0] == "floyd"@ {
        all.skip(1)
    } else {
        all
    };
    assert(args =~= all.skip(i as int));
    let mut format = Format::Text;
    let mut positional: Vec<String> = Vec::new();
    assert(positional.deep_view() =~= seq![]);
    while i < count
        invariant
            i <= count,
            count == raw@.len(),
            all == raw.deep_view(),
            args == (if all.len() > 0 && all[0] == "floyd"@ {
                all.skip(1)
            } else {
                all
            }),
            sorted_out(args, Format::Text, seq![]) == sorted_out(
                all.skip(i as int),
                format,
                positional.deep_view(),
            ),
        decreases count - i,
    {
        assert(all.skip(i as int)[0] == raw@[i as int]@);
        assert(all.skip(i as int).skip(1) =~= all.skip(i + 1));
        let chars = chars_of(raw[i].as_str());
        if let Some(name) = strip_prefix(chars.as_slice(), "--format=") {
            let name = string_of(name);
            match parse_format(name.as_str()) {
                Ok(f) => {
                    format = f;
                },
                Err(e) => return Err(e),
            }
            i += 1;
        } else if same_text(raw[i].as_str(), "--format") {
            if i + 1 >= count {
                return Err("--format requires a value".to_owned());
            }
            assert(all.skip(i as int)[1] == raw@[i + 1]@);
            assert(all.skip(i as int).skip(2) =~= all.skip(i + 2));
            match parse_format(raw[i + 1].as_str()) {
                Ok(f) => {
                    format = f;
                },
                Err(e) => return Err(e),
            }
            i += 2;
        } else {
            let ghost before = positional.deep_view();
            let arg = raw[i].clone();
            positional.push(arg);
            assert(positional.deep_view() =~= before.push(arg@));
            i += 1;
        }
    }
    assert(all.skip(i as int) =~= seq![]);
    assert(positional.deep_view().len() == positional@.len());
    let ghost words = positional.deep_view();
    let test_mode = positional.len() > 0 && same_text(positional[0].as_str(), "test");
    let first: usize = if test_mode {
        1
    } else {
        0
    };
    let path = if first < positional.len() {
        Some(positional[first].clone())
    } else {
        None
    };
    let r = Invocation { format, test_mode, path };
    assert(r.deep_view() == invoked(format, words));
    Ok(r)
}

/// What is known of the path that is to be analysed.
#[derive(Debug, Clone)]
pub enum Place {
    /// No path was given; the current directory is taken.
    CurrentDir {
        /// The directory, as text.
        shown: String,
        /// Its manifest's path.
        manifest: String,
        /// Whether the manifest exists.
        has_manifest: bool,
    },
    /// A path was given.
    Path {
        /// The path, as text.
        shown: String,
        /// Whether it exists.
        exists: bool,
        /// Whether it is a directory.
        is_dir: bool,
        /// The path of a manifest inside it.
        manifest: String,
        /// Whether that manifest exists.
        has_manifest: bool,
        /// Whether its file name is `Cargo.toml`.
        is_manifest: bool,
        /// Whether its extension is `rs`.
        is_rust: bool,
    },
}

/// What is analysed.
#[derive(Debug, Clone)]
pub enum Source {
    /// A single source file.
    SingleFile(String),
    /// A cargo project, by its manifest.
    Cargo(String),
}

/// The model of a [`Source`].
pub enum SourceView {
    SingleFile(Seq<char>),
    Cargo(Seq<char>),
}

impl DeepView for Source {
    type V = SourceView;

    open spec fn deep_view(&self) -> SourceView {
        match *self {
            Source::SingleFile(p) => SourceView::SingleFile(p@),
            Source::Cargo(p) => SourceView::Cargo(p@),
        }
    }
}

/// What a place refers to: a manifest, a directory that holds one, or a Rust
/// source file; anything else is an error.
pub open spec fn source_at(place: Place) -> Result<SourceView, Seq<char>> {
    match place {
        Place::CurrentDir { shown, manifest, has_manifest } => if has_manifest {
            Ok(SourceView::Cargo(manifest@))
        } else {
            Err(
                "no Cargo.toml in "@ + shown@
                    + " and no path argument given; specify a source file or run from a cargo project"@,
            )
        },
        Place::Path { shown, exists, is_dir, manifest, has_manifest, is_manifest, is_rust } => {
            if !exists {
                Err("source not found: "@ + shown@)
            } else if is_dir {
                if has_manifest {
                    Ok(SourceView::Cargo(manifest@))
                } else {
                    Err("directory "@ + shown@ + " has no Cargo.toml"@)
                }
            } else if is_manifest {
                Ok(SourceView::Cargo(shown@))
            } else if is_rust {
                Ok(SourceView::SingleFile(shown@))
            } else {
                Err(
                    "unsupported source: "@ + shown@
                        + " (expected a .rs file, a Cargo.toml, or a directory containing one)"@,
                )
            }
        },
    }
}

/// Text between a prefix and a suffix.
fn around(prefix: &str, text: &str, suffix: &str) -> (r: String)
    ensures
        r@ == prefix@ + text@ + suffix@,
{
    let mut out = String::new();
    out.append(prefix);
    out.append(text);
    out.append(suffix);
    assert(out@ =~= prefix@ + text@ + suffix@);
    out
}

/// Decides what a place refers to.
pub fn resolve_source(place: Place) -> (r: Result<Source, String>)
    ensures
        match r {
            Ok(s) => source_at(place) == Ok::<SourceView, Seq<char>>(s.deep_view()),
            Err(e) => source_at(place) == Err::<SourceView, Seq<char>>(e@),
        },
{
    match place {
        Place::CurrentDir { shown, manifest, has_manifest } => if has_manifest {
            Ok(Source::Cargo(manifest))
        } else {
            Err(
                around(
                    "no Cargo.toml in ",
                    shown.as_str(),
                    " and no path argument given; specify a source file or run from a cargo project",
                ),
            )
        },
        Place::Path { shown, exists, is_dir, manifest, has_manifest, is_manifest, is_rust } => {
            if !exists {
                let mut message = String::new();
                message.append("source not found: ");
                message.append(shown.as_str());
                assert(message@ =~= "source not found: "@ + shown@);
                Err(message)
            } else if is_dir {
                if has_manifest {
                    Ok(Source::Cargo(manifest))
                } else {
                    Err(around("directory ", shown.as_str(), " has no Cargo.toml"))
                }
            } else if is_manifest {
                Ok(Source::Cargo(shown))
            } else if is_rust {
                Ok(Source::SingleFile(shown))
            } else {
                Err(
                    around(
                        "unsupported source: ",
                        shown.as_str(),
                        " (expected a .rs file, a Cargo.toml, or a directory containing one)",
                    ),
                )
            }
        },
    }
}

/// What is to be done.
#[derive(Debug, Clone)]
pub enum Task {
    /// Static analysis of a source file.
    Static(String),
    /// Runtime analysis of a source file.
    TestFile(String),
    /// Runtime analysis of a cargo project.
    TestProject(String),
    /// Nothing: the combination is not supported.
    Unsupported,
}

/// Decides what is to be done. Static analysis of a whole project is not
/// supported.
pub fn choose_task(test_mode: bool, source: Source) -> (r: Task)
    ensures
        match source {
            Source::Cargo(p) => if test_mode {
                r == Task::TestProject(p)
            } else {
                r == Task::Unsupported
            },
            Source::SingleFile(p) => if test_mode {
                r == Task::TestFile(p)
            } else {
                r == Task::Static(p)
            },
        },
{
    match source {
        Source::Cargo(p) => if test_mode {
            Task::TestProject(p)
        } else {
            Task::Unsupported
        },
        Source::SingleFile(p) => if test_mode {
            Task::TestFile(p)
        } else {
            Task::Static(p)
        },
    }
}

/// The last format option of a command line counts: what stands before it
/// does not change what the rest asks for.
pub proof fn last_format_counts(
    args: Seq<Seq<char>>,
    a: Format,
    b: Format,
    option: Seq<char>,
    positional: Seq<Seq<char>>,
)
    requires
        after_prefix(option, "--format="@) is Some,
    ensures
        sorted_out(seq![option] + args, a, positional) == sorted_out(
            seq![option] + args,
            b,
            positional,
        ),
{
}

} // verus!
