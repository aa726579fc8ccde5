//! The command line: which flags were given and what they select.

use vstd::prelude::*;

use pico_args::Arguments;

use crate::theme::{theme_name_of, ThemeName};

verus! {

/// A pico-args parser, carried as it is.
#[verifier::external_type_specification]
#[verifier::external_body]
pub struct ExArguments(Arguments);

/// The arguments that a pico-args parser still holds, in order, as text.
/// Every parser this library makes is built from strings.
pub uninterp spec fn arguments_held(args: Arguments) -> Seq<Seq<char>>;

/// What `{:?}` writes for an OS string that holds the given text.
pub uninterp spec fn os_debug_text(text: Seq<char>) -> Seq<char>;

/// What the command line asks for.
#[derive(Debug)]
pub struct CliArgs {
    pub path: Option<String>,
    pub read_stdin: bool,
    pub print: bool,
    pub watch: bool,
    pub toc_open: bool,
    pub syntax_highlighting: bool,
    pub theme: ThemeName,
    pub help: bool,
}

/// What an argument parser found on the command line: the flags that are
/// present, the value after `--theme`, the free argument (a file path), and
/// the first argument left over, written as Rust's debug format writes it.
/// A parser error is carried as its message.
#[derive(Debug)]
pub struct RawArgs {
    pub help: bool,
    pub stdin: bool,
    pub print: bool,
    pub watch: bool,
    pub toc: bool,
    pub no_syntax: bool,
    pub theme: Result<Option<String>, String>,
    pub path: Result<Option<String>, String>,
    pub unexpected: Option<String>,
}

/// The view of `RawArgs`.
pub struct RawV {
    pub help: bool,
    pub stdin: bool,
    pub print: bool,
    pub watch: bool,
    pub toc: bool,
    pub no_syntax: bool,
    pub theme: Result<Option<Seq<char>>, Seq<char>>,
    pub path: Result<Option<Seq<char>>, Seq<char>>,
    pub unexpected: Option<Seq<char>>,
}

/// An optional string as text.
pub open spec fn opt_text(o: Option<String>) -> Option<Seq<char>> {
    match o {
        Some(s) => Some(s@),
        None => None,
    }
}

/// A parser's result for an optional string, as text.
pub open spec fn result_text(r: Result<Option<String>, String>) -> Result<Option<Seq<char>>, Seq<char>> {
    match r {
        Ok(o) => Ok(opt_text(o)),
        Err(e) => Err(e@),
    }
}

impl View for RawArgs {
    type V = RawV;

    open spec fn view(&self) -> RawV {
        RawV {
            help: self.help,
            stdin: self.stdin,
            print: self.print,
            watch: self.watch,
            toc: self.toc,
            no_syntax: self.no_syntax,
            theme: result_text(self.theme),
            path: result_text(self.path),
            unexpected: opt_text(self.unexpected),
        }
    }
}

/// The view of `CliArgs`.
pub struct ArgsV {
    pub path: Option<Seq<char>>,
    pub read_stdin: bool,
    pub print: bool,
    pub watch: bool,
    pub toc_open: bool,
    pub syntax_highlighting: bool,
    pub theme: ThemeName,
    pub help: bool,
}

impl View for CliArgs {
    type V = ArgsV;

    open spec fn view(&self) -> ArgsV {
        ArgsV {
            path: opt_text(self.path),
            read_stdin: self.read_stdin,
            print: self.print,
            watch: self.watch,
            toc_open: self.toc_open,
            syntax_highlighting: self.syntax_highlighting,
            theme: self.theme,
            help: self.help,
        }
    }
}

/// The arguments that ask only for help.
pub open spec fn help_args() -> ArgsV {
    ArgsV {
        path: None,
        read_stdin: false,
        print: false,
        watch: false,
        toc_open: false,
        syntax_highlighting: true,
        theme: ThemeName::Auto,
        help: true,
    }
}

/// What a command line means, checked in this order: help wins; then a
/// `--theme` value must be read and name a theme; then the path must be read;
/// then nothing may be left over; and a file path or `--stdin` is needed.
pub open spec fn parsed(raw: RawV) -> Result<ArgsV, Seq<char>> {
    if raw.help {
        Ok(help_args())
    } else if raw.theme is Err {
        Err(raw.theme->Err_0)
    } else if raw.theme->Ok_0 is Some && theme_name_of(raw.theme->Ok_0->Some_0) is None {
        Err("unknown theme '"@ + raw.theme->Ok_0->Some_0 + "', expected auto|light|dark|ansi"@)
    } else if raw.path is Err {
        Err(raw.path->Err_0)
    } else if raw.unexpected is Some {
        Err("unexpected argument "@ + raw.unexpected->Some_0)
    } else if !raw.stdin && raw.path->Ok_0 is None {
        Err("expected a file path or --stdin"@)
    } else {
        Ok(
            ArgsV {
                path: raw.path->Ok_0,
                read_stdin: raw.stdin,
                print: raw.print,
                watch: raw.watch,
                toc_open: raw.toc,
                syntax_highlighting: !raw.no_syntax,
                theme: match raw.theme->Ok_0 {
                    Some(name) => theme_name_of(name)->Some_0,
                    None => ThemeName::Auto,
                },
                help: false,
            },
        )
    }
}

// ---------------------------------------------------------------------
// Taking arguments off the command line, as pico-args does
// ---------------------------------------------------------------------

/// The first position of `key` among the arguments.
pub open spec fn find_arg(held: Seq<Seq<char>>, key: Seq<char>) -> Option<int>
    decreases held.len(),
{
    if held.len() == 0 {
        None
    } else if held[0] == key {
        Some(0)
    } else {
        match find_arg(held.drop_first(), key) {
            Some(i) => Some(i + 1),
            None => None,
        }
    }
}

/// A flag taken off the arguments: whether `key` is among them, and the
/// arguments without its first occurrence.
pub open spec fn take_flag(held: Seq<Seq<char>>, key: Seq<char>) -> (bool, Seq<Seq<char>>) {
    match find_arg(held, key) {
        Some(i) => (true, held.remove(i)),
        None => (false, held),
    }
}

/// A flag with a short and a long key taken off the arguments: the short key
/// is looked for first, then the long one.
pub open spec fn take_flag_pair(held: Seq<Seq<char>>, short: Seq<char>, long: Seq<char>) -> (
    bool,
    Seq<Seq<char>>,
) {
    match find_arg(held, short) {
        Some(i) => (true, held.remove(i)),
        None => take_flag(held, long),
    }
}

/// The error message of an option given as the last argument, with no value
/// after it.
pub open spec fn missing_value_message(key: Seq<char>) -> Seq<char> {
    "the '"@ + key + "' option doesn't have an associated value"@
}

/// An option's value taken off the arguments: the argument after the first
/// occurrence of `key`, both removed; nothing when `key` is absent; an error,
/// with the arguments left alone, when `key` is the last argument.
pub open spec fn take_value(held: Seq<Seq<char>>, key: Seq<char>) -> (
    Result<Option<Seq<char>>, Seq<char>>,
    Seq<Seq<char>>,
) {
    match find_arg(held, key) {
        None => (Ok(None), held),
        Some(i) => if i + 1 < held.len() {
            (Ok(Some(held[i + 1])), held.remove(i).remove(i))
        } else {
            (Err(missing_value_message(key)), held)
        },
    }
}

/// The first remaining argument taken off, if there is one.
pub open spec fn take_free(held: Seq<Seq<char>>) -> (Option<Seq<char>>, Seq<Seq<char>>) {
    if held.len() == 0 {
        (None, held)
    } else {
        (Some(held[0]), held.drop_first())
    }
}

/// What the arguments of a command line (the program's name left out) hold:
/// `-h`/`--help`, `--stdin`, `--print`, `--watch`, `--toc` and `--no-syntax`
/// are taken off in that order, then the `--theme` value, then the path, and
/// the first argument still left is reported.
pub open spec fn raw_of(argv: Seq<Seq<char>>) -> RawV {
    let (help, a1) = take_flag_pair(argv, "-h"@, "--help"@);
    let (stdin, a2) = take_flag(a1, "--stdin"@);
    let (print, a3) = take_flag(a2, "--print"@);
    let (watch, a4) = take_flag(a3, "--watch"@);
    let (toc, a5) = take_flag(a4, "--toc"@);
    let (no_syntax, a6) = take_flag(a5, "--no-syntax"@);
    let (theme, a7) = take_value(a6, "--theme"@);
    let (path, a8) = take_free(a7);
    RawV {
        help,
        stdin,
        print,
        watch,
        toc,
        no_syntax,
        theme,
        path: Ok(path),
        unexpected: if a8.len() > 0 {
            Some(os_debug_text(a8[0]))
        } else {
            None
        },
    }
}

/// A text that is not among the arguments: `find_arg` finds nothing.
proof fn lemma_find_absent(held: Seq<Seq<char>>, key: Seq<char>)
    requires
        forall|i: int| 0 <= i < held.len() ==> #[trigger] held[i] != key,
    ensures
        find_arg(held, key) is None,
    decreases held.len(),
{
    if held.len() > 0 {
        assert forall|i: int| 0 <= i < held.drop_first().len() implies #[trigger] held.drop_first()[i]
            != key by {
            assert(held.drop_first()[i] == held[i + 1]);
        }
        lemma_find_absent(held.drop_first(), key);
    }
}

/// Every option that the help text lists is accepted: a command line that
/// gives each flag of the help text, a theme by one of its names and a file
/// path (one that does not start with a dash) asks for exactly that; and
/// `-h` or `--help` alone asks for help.
pub proof fn lemma_usage_options_accepted(name: Seq<char>, path: Seq<char>)
    requires
        theme_name_of(name) is Some,
        path.len() > 0,
        path[0] != '-',
    ensures
        parsed(
            raw_of(
                seq![
                    "--stdin"@,
                    "--print"@,
                    "--watch"@,
                    "--toc"@,
                    "--no-syntax"@,
                    "--theme"@,
                    name,
                    path,
                ],
            ),
        ) == Ok::<ArgsV, Seq<char>>(
            ArgsV {
                path: Some(path),
                read_stdin: true,
                print: true,
                watch: true,
                toc_open: true,
                syntax_highlighting: false,
                theme: theme_name_of(name)->Some_0,
                help: false,
            },
        ),
        parsed(raw_of(seq!["-h"@])) == Ok::<ArgsV, Seq<char>>(help_args()),
        parsed(raw_of(seq!["--help"@])) == Ok::<ArgsV, Seq<char>>(help_args()),
{
    reveal_strlit("-h");
    reveal_strlit("--help");
    reveal_strlit("--stdin");
    reveal_strlit("--print");
    reveal_strlit("--watch");
    reveal_strlit("--toc");
    reveal_strlit("--no-syntax");
    reveal_strlit("--theme");
    reveal_strlit("auto");
    reveal_strlit("light");
    reveal_strlit("dark");
    reveal_strlit("minimal");
    reveal_strlit("ansi");
    assert(name.len() > 0 && name[0] != '-');
    let a0 = seq!["--stdin"@, "--print"@, "--watch"@, "--toc"@, "--no-syntax"@, "--theme"@, name, path];
    assert forall|i: int| 0 <= i < a0.len() implies #[trigger] a0[i] != "-h"@ && a0[i] != "--help"@ by {
        if i < 6 {
            assert(a0[i].len() != 2);
            assert(a0[i].len() != 6 || a0[i][2] != "--help"@[2]);
        } else {
            assert(a0[i][0] != '-');
        }
    }
    lemma_find_absent(a0, "-h"@);
    lemma_find_absent(a0, "--help"@);
    let a2 = a0.remove(0);
    assert(a2 =~= seq!["--print"@, "--watch"@, "--toc"@, "--no-syntax"@, "--theme"@, name, path]);
    let a3 = a2.remove(0);
    assert(a3 =~= seq!["--watch"@, "--toc"@, "--no-syntax"@, "--theme"@, name, path]);
    let a4 = a3.remove(0);
    assert(a4 =~= seq!["--toc"@, "--no-syntax"@, "--theme"@, name, path]);
    let a5 = a4.remove(0);
    assert(a5 =~= seq!["--no-syntax"@, "--theme"@, name, path]);
    let a6 = a5.remove(0);
    assert(a6 =~= seq!["--theme"@, name, path]);
    let a7 = a6.remove(0).remove(0);
    assert(a7 =~= seq![path]);
    assert(a7.drop_first() =~= Seq::<Seq<char>>::empty());
    let h = seq!["-h"@];
    assert(h[0] == "-h"@);
    let l = seq!["--help"@];
    assert(l[0].len() != 2);
    assert(forall|i: int| 0 <= i < l.len() ==> #[trigger] l[i] != "-h"@);
    lemma_find_absent(l, "-h"@);
}

/// A long key: two dashes first.
pub open spec fn long_key(key: Seq<char>) -> bool {
    key.len() >= 2 && key[0] == '-' && key[1] == '-'
}

/// `Arguments::from_vec`: a parser over the given arguments, in order.
#[verifier::external_body]
fn arguments_from(argv: Vec<String>) -> (r: Arguments)
    ensures
        arguments_held(r) == argv@.map_values(|a: String| a@),
{
    Arguments::from_vec(argv.into_iter().map(Into::into).collect())
}

/// `Arguments::contains` with one long key: removes the first argument equal
/// to the key and tells whether there was one.  (A key that does not start
/// with a dash fails a debug assertion in pico-args.)
#[verifier::external_body]
fn contains_key(args: &mut Arguments, key: &'static str) -> (r: bool)
    requires
        long_key(key@),
    ensures
        (r, arguments_held(*final(args))) == take_flag(arguments_held(*old(args)), key@),
{
    args.contains(key)
}

/// `Arguments::contains` with a short and a long key: the short key is looked
/// for first, then the long one, and the first match is removed.  (pico-args
/// asserts in debug builds that the short key is a dash and one character and
/// the long key starts with two dashes.)
#[verifier::external_body]
fn contains_keys(args: &mut Arguments, short: &'static str, long: &'static str) -> (r: bool)
    requires
        short@.len() == 2 && short@[0] == '-' && short@[1] != '-',
        long_key(long@),
    ensures
        (r, arguments_held(*final(args))) == take_flag_pair(
            arguments_held(*old(args)),
            short@,
            long@,
        ),
{
    args.contains([short, long])
}

/// `Arguments::opt_value_from_str` for a `String` value under one long key:
/// the argument after the key's first occurrence, both removed; `None` when
/// the key is absent; when the key is the last argument, pico-args'
/// `OptionWithoutAValue` error, as its `Display` writes it, and the arguments
/// are left alone.  (Turning text into a `String` cannot fail.)
#[verifier::external_body]
fn opt_value(args: &mut Arguments, key: &'static str) -> (r: Result<Option<String>, String>)
    requires
        long_key(key@),
    ensures
        (result_text(r), arguments_held(*final(args))) == take_value(
            arguments_held(*old(args)),
            key@,
        ),
{
    args.opt_value_from_str::<_, String>(key).map_err(|e| e.to_string())
}

/// `Arguments::opt_free_from_str` for a `String`: the first remaining argument,
/// removed, or `None` when nothing is left.  (Every argument is text, so it
/// does not fail.)
#[verifier::external_body]
fn opt_free(args: &mut Arguments) -> (r: Result<Option<String>, String>)
    ensures
        r is Ok,
        (opt_text(r->Ok_0), arguments_held(*final(args))) == take_free(arguments_held(*old(args))),
{
    args.opt_free_from_str::<String>().map_err(|e| e.to_string())
}

/// `Arguments::finish`: the arguments left, each written as `{:?}` writes an
/// OS string.
#[verifier::external_body]
fn arguments_left(args: Arguments) -> (r: Vec<String>)
    ensures
        r@.len() == arguments_held(args).len(),
        forall|i: int|
            0 <= i < r@.len() ==> #[trigger] r@[i]@ == os_debug_text(arguments_held(args)[i]),
{
    args.finish().iter().map(|a| format!("{a:?}")).collect()
}

/// Reads a command line (the program's name left out) with pico-args and
/// decides what it asks for: the result is `parsed` of `raw_of` of the
/// arguments.
pub fn parse_args(argv: Vec<String>) -> (r: Result<CliArgs, String>)
    ensures
        match r {
            Ok(a) => parsed(raw_of(argv@.map_values(|s: String| s@))) == Ok::<ArgsV, Seq<char>>(
                a@,
            ),
            Err(e) => parsed(raw_of(argv@.map_values(|s: String| s@))) == Err::<
                ArgsV,
                Seq<char>,
            >(e@),
        },
{
    proof {
        reveal_strlit("-h");
        reveal_strlit("--help");
        reveal_strlit("--stdin");
        reveal_strlit("--print");
        reveal_strlit("--watch");
        reveal_strlit("--toc");
        reveal_strlit("--no-syntax");
        reveal_strlit("--theme");
    }
    let mut args = arguments_from(argv);
    let help = contains_keys(&mut args, "-h", "--help");
    let stdin = contains_key(&mut args, "--stdin");
    let print = contains_key(&mut args, "--print");
    let watch = contains_key(&mut args, "--watch");
    let toc = contains_key(&mut args, "--toc");
    let no_syntax = contains_key(&mut args, "--no-syntax");
    let theme = opt_value(&mut args, "--theme");
    let path = opt_free(&mut args);
    let left = arguments_left(args);
    let unexpected = if left.len() > 0 {
        Some(left[0].clone())
    } else {
        None
    };
    let raw = RawArgs { help, stdin, print, watch, toc, no_syntax, theme, path, unexpected };
    CliArgs::parse(raw)
}

/// The help text.
pub open spec fn usage_text() -> Seq<char> {
    "\
kaku - fast terminal Markdown viewer

USAGE:
  kaku [OPTIONS] <FILE>
  cat README.md | kaku --stdin

OPTIONS:
  --stdin         Read Markdown from stdin
  --print         Render once to stdout instead of starting the pager
  --watch         Reload on file changes
  --toc           Start with the TOC panel open
  --theme <NAME>  auto | light | dark | ansi
  --no-syntax     Disable syntax highlighting for code blocks
  -h, --help      Show this help message
"@
}

impl CliArgs {
    /// Decides what the command line asks for (see `parsed`).
    pub fn parse(raw: RawArgs) -> (r: Result<Self, String>)
        ensures
            match r {
                Ok(a) => parsed(raw@) == Ok::<ArgsV, Seq<char>>(a@),
                Err(e) => parsed(raw@) == Err::<ArgsV, Seq<char>>(e@),
            },
    {
        if raw.help {
            return Ok(
                CliArgs {
                    path: None,
                    read_stdin: false,
                    print: false,
                    watch: false,
                    toc_open: false,
                    syntax_highlighting: true,
                    theme: ThemeName::Auto,
                    help: true,
                },
            );
        }
        let theme = match &raw.theme {
            Err(e) => {
                return Err(e.clone());
            },
            Ok(None) => ThemeName::Auto,
            Ok(Some(name)) => match ThemeName::parse(name.as_str()) {
                Some(t) => t,
                None => {
                    let mut message = "unknown theme '".to_string();
                    message.append(name.as_str());
                    message.append("', expected auto|light|dark|ansi");
                    return Err(message);
                },
            },
        };
        let path = match raw.path {
            Err(e) => {
                return Err(e);
            },
            Ok(p) => p,
        };
        if let Some(u) = &raw.unexpected {
            let mut message = "unexpected argument ".to_string();
            message.append(u.as_str());
            return Err(message);
        }
        if !raw.stdin && path.is_none() {
            return Err("expected a file path or --stdin".to_string());
        }
        Ok(
            CliArgs {
                path,
                read_stdin: raw.stdin,
                print: raw.print,
                watch: raw.watch,
                toc_open: raw.toc,
                syntax_highlighting: !raw.no_syntax,
                theme,
                help: false,
            },
        )
    }

    /// The help text (see `usage_text`).
    pub fn usage() -> (r: &'static str)
        ensures
            r@ == usage_text(),
    {
        "\
kaku - fast terminal Markdown viewer

USAGE:
  kaku [OPTIONS] <FILE>
  cat README.md | kaku --stdin

OPTIONS:
  --stdin         Read Markdown from stdin
  --print         Render once to stdout instead of starting the pager
  --watch         Reload on file changes
  --toc           Start with the TOC panel open
  --theme <NAME>  auto | light | dark | ansi
  --no-syntax     Disable syntax highlighting for code blocks
  -h, --help      Show this help message
"
    }
}

} // verus!
