use kaku::args::{parse_args, CliArgs, RawArgs};
use kaku::theme::ThemeName;
use kaku::watch::{is_target, should_reload};

fn raw() -> RawArgs {
    RawArgs {
        help: false,
        stdin: false,
        print: false,
        watch: false,
        toc: false,
        no_syntax: false,
        theme: Ok(None),
        path: Ok(Some("README.md".to_string())),
        unexpected: None,
    }
}

#[test]
fn file_path_with_flags() {
    let mut r = raw();
    r.print = true;
    r.no_syntax = true;
    r.theme = Ok(Some("ansi".to_string()));
    let args = CliArgs::parse(r).unwrap();
    assert_eq!(args.path.as_deref(), Some("README.md"));
    assert!(args.print);
    assert!(!args.syntax_highlighting);
    assert_eq!(args.theme, ThemeName::Minimal);
    assert!(!args.help);
}

#[test]
fn help_wins_over_everything() {
    let mut r = raw();
    r.help = true;
    r.theme = Ok(Some("bogus".to_string()));
    let args = CliArgs::parse(r).unwrap();
    assert!(args.help);
    assert!(args.path.is_none());
    assert!(args.syntax_highlighting);
    assert_eq!(args.theme, ThemeName::Auto);
}

#[test]
fn argument_errors() {
    let mut r = raw();
    r.theme = Ok(Some("neon".to_string()));
    assert_eq!(
        CliArgs::parse(r).unwrap_err(),
        "unknown theme 'neon', expected auto|light|dark|ansi"
    );
    let mut r = raw();
    r.path = Ok(None);
    assert_eq!(CliArgs::parse(r).unwrap_err(), "expected a file path or --stdin");
    let mut r = raw();
    r.path = Ok(None);
    r.stdin = true;
    assert!(CliArgs::parse(r).is_ok());
    let mut r = raw();
    r.unexpected = Some("\"extra\"".to_string());
    assert_eq!(CliArgs::parse(r).unwrap_err(), "unexpected argument \"extra\"");
    let mut r = raw();
    r.theme = Err("missing value".to_string());
    assert_eq!(CliArgs::parse(r).unwrap_err(), "missing value");
}

#[test]
fn usage_lists_the_options() {
    let text = CliArgs::usage();
    assert!(text.starts_with("kaku - fast terminal Markdown viewer\n"));
    assert!(text.contains("  --no-syntax     Disable syntax highlighting for code blocks\n"));
}

#[test]
fn watcher_debounces_and_matches_names() {
    assert!(should_reload(true, 200));
    assert!(!should_reload(true, 199));
    assert!(!should_reload(false, 1000));
    assert!(is_target(true, false, None, None));
    assert!(is_target(false, false, Some("a.md"), Some("a.md")));
    assert!(!is_target(false, false, Some("a.md"), Some("b.md")));
    assert!(!is_target(false, false, None, Some("a.md")));
}

#[test]
fn usage_theme_names_all_parse() {
    let usage = CliArgs::usage();
    assert!(usage.starts_with("kaku - fast terminal Markdown viewer\n"));
    let line = usage.lines().find(|l| l.contains("--theme <NAME>")).unwrap();
    let names = line.split("--theme <NAME>").nth(1).unwrap();
    let mut count = 0;
    for name in names.split('|') {
        assert!(ThemeName::parse(name.trim()).is_some(), "{name}");
        count += 1;
    }
    assert_eq!(count, 4);
    for flag in ["--stdin", "--print", "--watch", "--toc", "--no-syntax", "-h, --help"] {
        assert!(usage.contains(flag), "{flag}");
    }
}

fn argv(items: &[&str]) -> Vec<String> {
    items.iter().map(|s| s.to_string()).collect()
}

#[test]
fn command_lines_are_read_in_order() {
    let args = parse_args(argv(&["README.md", "--print", "--no-syntax", "--theme", "ansi"])).unwrap();
    assert_eq!(args.path.as_deref(), Some("README.md"));
    assert!(args.print);
    assert!(!args.syntax_highlighting);
    assert!(!args.watch);
    assert_eq!(args.theme, ThemeName::Minimal);

    let help = parse_args(argv(&["--theme", "neon", "-h"])).unwrap();
    assert!(help.help);
    assert!(parse_args(argv(&["--help"])).unwrap().help);

    let stdin = parse_args(argv(&["--stdin", "--toc", "--watch"])).unwrap();
    assert!(stdin.read_stdin && stdin.toc_open && stdin.watch);
    assert!(stdin.path.is_none());
    assert_eq!(stdin.theme, ThemeName::Auto);
}

#[test]
fn command_line_errors() {
    assert_eq!(
        parse_args(argv(&["a.md", "--theme"])).unwrap_err(),
        "the '--theme' option doesn't have an associated value"
    );
    assert_eq!(
        parse_args(argv(&["a.md", "--theme", "neon"])).unwrap_err(),
        "unknown theme 'neon', expected auto|light|dark|ansi"
    );
    assert_eq!(parse_args(argv(&["a.md", "b.md"])).unwrap_err(), "unexpected argument \"b.md\"");
    assert_eq!(
        parse_args(argv(&["a.md", "--stdin", "--stdin"])).unwrap_err(),
        "unexpected argument \"--stdin\""
    );
    assert_eq!(parse_args(argv(&[])).unwrap_err(), "expected a file path or --stdin");
}
