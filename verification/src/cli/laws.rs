//! What holds of every command line.
use crate::cli::{
    format_named, invocation_of, sorted_out, source_at, Format, InvocationView, Place,
    SourceView,
};
use crate::text::laws::prefix_and_suffix_come_off;
use crate::text::{after_prefix, begins_with};
use vstd::prelude::*;

verus! {

/// The three formats have their names, and no other name is one.
pub proof fn formats_have_their_names(s: Seq<char>)
    ensures
        format_named("text"@) == Ok::<Format, Seq<char>>(Format::Text),
        format_named("json"@) == Ok::<Format, Seq<char>>(Format::Json),
        format_named("junit"@) == Ok::<Format, Seq<char>>(Format::Junit),
        format_named(s) is Ok ==> s == "text"@ || s == "json"@ || s == "junit"@,
{
    reveal_strlit("text");
    reveal_strlit("json");
    reveal_strlit("junit");
    assert("text"@[0] == 't');
    assert("json"@[0] == 'j');
    assert("junit"@.len() == 5);
}

/// Whether an argument is no option.
pub open spec fn is_word(arg: Seq<char>) -> bool {
    arg != "--format"@ && !begins_with(arg, "--format="@)
}

/// Arguments are sorted out one after the other: what is made of the first
/// ones is what the rest is added to.
pub proof fn arguments_are_sorted_out_in_turn(
    s: Seq<Seq<char>>,
    t: Seq<Seq<char>>,
    format: Format,
    positional: Seq<Seq<char>>,
)
    requires
        sorted_out(s, format, positional) is Ok,
    ensures
        ({
            let (f, p) = sorted_out(s, format, positional)->Ok_0;
            sorted_out(s + t, format, positional) == sorted_out(t, f, p)
        }),
    decreases s.len(),
{
    let all = s + t;
    if s.len() == 0 {
        assert(all =~= t);
    } else {
        assert(all[0] == s[0]);
        assert(all.skip(1) =~= s.skip(1) + t);
        match after_prefix(s[0], "--format="@) {
            Some(name) => {
                arguments_are_sorted_out_in_turn(s.skip(1), t, format_named(name)->Ok_0, positional);
            },
            None => {
                if s[0] == "--format"@ {
                    assert(all[1] == s[1]);
                    assert(all.skip(2) =~= s.skip(2) + t);
                    arguments_are_sorted_out_in_turn(
                        s.skip(2),
                        t,
                        format_named(s[1])->Ok_0,
                        positional,
                    );
                } else {
                    arguments_are_sorted_out_in_turn(s.skip(1), t, format, positional.push(s[0]));
                }
            },
        }
    }
}

/// What single arguments are sorted out to: a word is kept behind the words
/// before it, a format option sets the format, in one argument or in two. A
/// format that is unknown or missing is an error.
pub proof fn single_arguments_are_sorted_out(
    arg: Seq<char>,
    format: Format,
    positional: Seq<Seq<char>>,
)
    ensures
        is_word(arg) ==> sorted_out(seq![arg], format, positional) == Ok::<
            (Format, Seq<Seq<char>>),
            Seq<char>,
        >((format, positional.push(arg))),
        match format_named(arg) {
            Ok(f) => sorted_out(seq!["--format="@ + arg], format, positional) == Ok::<
                (Format, Seq<Seq<char>>),
                Seq<char>,
            >((f, positional)) && sorted_out(seq!["--format"@, arg], format, positional) == Ok::<
                (Format, Seq<Seq<char>>),
                Seq<char>,
            >((f, positional)),
            Err(e) => sorted_out(seq!["--format="@ + arg], format, positional) == Err::<
                (Format, Seq<Seq<char>>),
                Seq<char>,
            >(e) && sorted_out(seq!["--format"@, arg], format, positional) == Err::<
                (Format, Seq<Seq<char>>),
                Seq<char>,
            >(e),
        },
        sorted_out(seq!["--format"@], format, positional) is Err,
{
    reveal_with_fuel(sorted_out, 2);
    reveal_strlit("--format");
    reveal_strlit("--format=");
    assert(seq![arg].skip(1) =~= seq![]);
    prefix_and_suffix_come_off("--format="@, arg);
    assert(seq!["--format="@ + arg].skip(1) =~= seq![]);
    assert(seq!["--format"@, arg].skip(2) =~= seq![]);
    assert(!begins_with("--format"@, "--format="@));
}

proof fn words_are_kept(words: Seq<Seq<char>>, format: Format, positional: Seq<Seq<char>>)
    requires
        forall|i: int| 0 <= i < words.len() ==> is_word(#[trigger] words[i]),
    ensures
        sorted_out(words, format, positional) == Ok::<(Format, Seq<Seq<char>>), Seq<char>>(
            (format, positional + words),
        ),
    decreases words.len(),
{
    if words.len() > 0 {
        assert(is_word(words[0]));
        assert forall|i: int| 0 <= i < words.skip(1).len() implies is_word(
            #[trigger] words.skip(1)[i],
        ) by {
            assert(is_word(words[i + 1]));
        }
        words_are_kept(words.skip(1), format, positional.push(words[0]));
        assert(positional.push(words[0]) + words.skip(1) =~= positional + words);
    } else {
        assert(positional + words =~= positional);
    }
}

/// A command line of words asks for runtime mode if its first word is `test`,
/// and for the path that stands first behind that, or first at all. The
/// format is text.
pub proof fn words_ask_for_mode_and_path(words: Seq<Seq<char>>)
    requires
        forall|i: int| 0 <= i < words.len() ==> is_word(#[trigger] words[i]),
        words.len() > 0 ==> words[0] != "floyd"@,
    ensures
        invocation_of(words) == Ok::<InvocationView, Seq<char>>(
            InvocationView {
                format: Format::Text,
                test_mode: words.len() > 0 && words[0] == "test"@,
                path: if words.len() == 0 {
                    None
                } else if words[0] != "test"@ {
                    Some(words[0])
                } else if words.len() > 1 {
                    Some(words[1])
                } else {
                    None
                },
            },
        ),
{
    words_are_kept(words, Format::Text, seq![]);
    assert(Seq::<Seq<char>>::empty() + words =~= words);
}

/// A format option may stand anywhere among the words, in one argument or in
/// two: it sets the format and changes nothing else.
pub proof fn option_may_stand_anywhere(
    s: Seq<Seq<char>>,
    name: Seq<char>,
    t: Seq<Seq<char>>,
)
    requires
        forall|i: int| 0 <= i < s.len() ==> is_word(#[trigger] s[i]),
        forall|i: int| 0 <= i < t.len() ==> is_word(#[trigger] t[i]),
        s.len() > 0,
        s[0] != "floyd"@,
        format_named(name) is Ok,
    ensures
        invocation_of(s + t) is Ok,
        invocation_of(s + seq!["--format="@ + name] + t) == Ok::<InvocationView, Seq<char>>(
            InvocationView {
                format: format_named(name)->Ok_0,
                ..invocation_of(s + t)->Ok_0
            },
        ),
        invocation_of(s + seq!["--format"@, name] + t) == invocation_of(
            s + seq!["--format="@ + name] + t,
        ),
{
    let f = format_named(name)->Ok_0;
    let none = Seq::<Seq<char>>::empty();
    words_are_kept(s, Format::Text, none);
    assert(none + s =~= s);
    words_are_kept(t, Format::Text, s);
    words_are_kept(t, f, s);
    arguments_are_sorted_out_in_turn(s, t, Format::Text, none);
    single_arguments_are_sorted_out(name, Format::Text, s);
    let one = seq!["--format="@ + name];
    let two = seq!["--format"@, name];
    arguments_are_sorted_out_in_turn(s, one, Format::Text, none);
    arguments_are_sorted_out_in_turn(s, two, Format::Text, none);
    arguments_are_sorted_out_in_turn(s + one, t, Format::Text, none);
    arguments_are_sorted_out_in_turn(s + two, t, Format::Text, none);
    assert((s + t)[0] == s[0]);
    assert((s + one + t)[0] == s[0]);
    assert((s + two + t)[0] == s[0]);
}

/// The name of the subcommand, which cargo hands over first, counts for
/// nothing.
pub proof fn subcommand_name_counts_for_nothing(args: Seq<Seq<char>>)
    requires
        args.len() > 0 ==> args[0] != "floyd"@,
    ensures
        invocation_of(seq!["floyd"@] + args) == invocation_of(args),
{
    assert((seq!["floyd"@] + args).skip(1) =~= args);
}

/// An error in the options is an error of the command line.
pub proof fn bad_option_is_an_error(s: Seq<Seq<char>>, name: Seq<char>, t: Seq<Seq<char>>)
    requires
        forall|i: int| 0 <= i < s.len() ==> is_word(#[trigger] s[i]),
        s.len() > 0,
        s[0] != "floyd"@,
        format_named(name) is Err,
    ensures
        invocation_of(s + (seq!["--format="@ + name] + t)) == Err::<InvocationView, Seq<char>>(
            format_named(name)->Err_0,
        ),
        invocation_of(s + seq!["--format"@]) is Err,
{
    let none = Seq::<Seq<char>>::empty();
    words_are_kept(s, Format::Text, none);
    assert(none + s =~= s);
    let rest = seq!["--format="@ + name] + t;
    arguments_are_sorted_out_in_turn(s, rest, Format::Text, none);
    arguments_are_sorted_out_in_turn(s, seq!["--format"@], Format::Text, none);
    prefix_and_suffix_come_off("--format="@, name);
    assert(rest[0] == "--format="@ + name);
    single_arguments_are_sorted_out(name, Format::Text, s);
    assert((s + rest)[0] == s[0]);
    assert((s + seq!["--format"@])[0] == s[0]);
}

/// A path is a project by its manifest, or that of its directory, and a
/// source file by its extension; without a path the current directory has to
/// hold a manifest. Nothing else is analysed.
pub proof fn source_is_project_or_file(place: Place)
    ensures
        place matches Place::CurrentDir { manifest, has_manifest, .. } ==> (if has_manifest {
            source_at(place) == Ok::<SourceView, Seq<char>>(SourceView::Cargo(manifest@))
        } else {
            source_at(place) is Err
        }),
        place is Path ==> {
            let there = place->Path_exists;
            let dir = place->Path_is_dir;
            let file = there && !dir;
            let shown = place->Path_shown@;
            &&& (source_at(place) == Ok::<SourceView, Seq<char>>(SourceView::SingleFile(shown))) == (
            file && !place->Path_is_manifest && place->Path_is_rust)
            &&& there && dir && place->Path_has_manifest ==> source_at(place) == Ok::<
                SourceView,
                Seq<char>,
            >(SourceView::Cargo(place->Path_manifest@))
            &&& file && place->Path_is_manifest ==> source_at(place) == Ok::<
                SourceView,
                Seq<char>,
            >(SourceView::Cargo(shown))
            &&& source_at(place) is Err == (!there || (dir && !place->Path_has_manifest) || (file
                && !place->Path_is_manifest && !place->Path_is_rust))
        },
{
}

/// Errors of the command line quote what is wrong.
pub proof fn command_line_errors_say_why(s: Seq<char>, shown: String, manifest: String)
    requires
        s != "text"@,
        s != "json"@,
        s != "junit"@,
    ensures
        format_named(s) == Err::<Format, Seq<char>>(
            "unknown --format value: "@ + s + " (expected text, json, or junit)"@,
        ),
        source_at(
            Place::Path {
                shown,
                exists: false,
                is_dir: false,
                manifest,
                has_manifest: false,
                is_manifest: false,
                is_rust: false,
            },
        ) == Err::<SourceView, Seq<char>>("source not found: "@ + shown@),
        source_at(
            Place::Path {
                shown,
                exists: true,
                is_dir: true,
                manifest,
                has_manifest: false,
                is_manifest: false,
                is_rust: false,
            },
        ) == Err::<SourceView, Seq<char>>("directory "@ + shown@ + " has no Cargo.toml"@),
        source_at(
            Place::Path {
                shown,
                exists: true,
                is_dir: false,
                manifest,
                has_manifest: false,
                is_manifest: false,
                is_rust: false,
            },
        ) == Err::<SourceView, Seq<char>>(
            "unsupported source: "@ + shown@
                + " (expected a .rs file, a Cargo.toml, or a directory containing one)"@,
        ),
        source_at(Place::CurrentDir { shown, manifest, has_manifest: false }) == Err::<
            SourceView,
            Seq<char>,
        >(
            "no Cargo.toml in "@ + shown@
                + " and no path argument given; specify a source file or run from a cargo project"@,
        ),
{
}

} // verus!
