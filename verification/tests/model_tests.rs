use confman::cli::Cli;
use confman::config::{Config, LinkMode};
use confman::module::entry::{Entry, Kind};
use confman::module::source::Source;
use confman::module::{Module, ModuleError};
use confman::utils;

#[test]
fn entry_new_defaults() {
    let e = Entry::new("foo/bar.baz", Kind::File);
    assert_eq!(e.kind, Kind::File);
    assert_eq!(e.value, "foo/bar.baz");
    assert!(e.link);
    assert_eq!(e.map_dir, None);
    assert!(!e.flatten);
    assert!(e.os.is_empty());
    assert!(e.rename.is_empty());
}

#[test]
fn entry_default_is_the_match_all_glob() {
    assert_eq!(Entry::default(), Entry::new("**/*", Kind::Glob));
}

#[test]
fn module_name_must_carry_information() {
    let src = || Source::with_git_shorthand("foo/bar").unwrap();
    assert_eq!(Module::new("", src()).unwrap_err(), ModuleError::MissingName);
    assert_eq!(Module::new(" \t ", src()).unwrap_err(), ModuleError::MissingName);
    let m = Module::new("dots", src()).unwrap();
    assert_eq!(m.name, "dots");
    assert_eq!(m.base, None);
    assert!(m.entries.is_empty());
    assert!(m.exclude.is_empty());
}

#[test]
fn config_defaults() {
    let c = Config::default();
    assert_eq!(c.link_mode, LinkMode::Always);
    assert!(c.includes.is_empty());
    assert!(c.modules.is_empty());
    assert_eq!(LinkMode::default(), LinkMode::Always);

    let m = Module::new("m", Source::with_git_shorthand("a/b").unwrap()).unwrap();
    assert_eq!(c.effective_link_mode(&m), LinkMode::Always);
}

#[test]
fn version_string_grows_with_verbosity() {
    let mut cli = Cli {
        command: None,
        config_path: None,
        quiet: false,
        verbose: 0,
        help: None,
        version: true,
    };
    assert_eq!(cli.get_version_string(), "confman 0.1.0");
    cli.verbose = 2;
    let long = cli.get_version_string();
    assert!(long.starts_with("confman 0.1.0\n"));
    assert!(long.contains("build-target:"));
}

#[test]
fn string_predicates() {
    assert!(utils::is_empty_or_whitespace(""));
    assert!(utils::is_empty_or_whitespace(" \u{a0}\t"));
    assert!(!utils::is_empty_or_whitespace(" x "));

    assert!(utils::is_repo_shorthand("foo/bar"));
    assert!(utils::is_repo_shorthand("f.o-o_1/b2"));
    assert!(!utils::is_repo_shorthand("foo"));
    assert!(!utils::is_repo_shorthand("/bar"));
    assert!(!utils::is_repo_shorthand("foo/"));
    assert!(!utils::is_repo_shorthand("foo/bar/baz"));
    assert!(!utils::is_repo_shorthand("fo o/bar"));

    assert!(utils::is_maybe_win_path("C:/x"));
    assert!(utils::is_maybe_win_path("d:"));
    assert!(!utils::is_maybe_win_path("/x"));
    assert!(!utils::is_maybe_win_path("1:/x"));

    assert!(utils::is_repo_char('a'));
    assert!(utils::is_repo_char('.'));
    assert!(!utils::is_repo_char('/'));

    assert!(utils::default_true());
    assert!(utils::is_true(&true));
    assert!(utils::is_false(&false));
}
