use confman::module::entry::{Entry, Kind};
use confman::module::source::Source;
use confman::module::Module;
use confman::resolve::{
    resolve_module, resolve_run, Mapping, ModuleFiles, ResolutionError, RunError,
};

fn s(x: &str) -> String {
    x.to_string()
}

fn module(name: &str, base: Option<&str>, entries: Vec<Entry>, exclude: Vec<&str>) -> Module {
    Module {
        name: s(name),
        source: Source::with_git_shorthand("foo/bar").unwrap(),
        base: base.map(s),
        entries,
        exclude: exclude.into_iter().map(s).collect(),
    }
}

fn tree(paths: &[&str]) -> Vec<String> {
    paths.iter().map(|p| s(p)).collect()
}

#[test]
fn default_entry_with_excludes() {
    // a module with no entries behaves as one default glob over everything
    let m = module("dots", Some("~"), vec![], vec![".git/", "**/*.md"]);
    let t = tree(&["a.txt", "README.md", ".git/config"]);
    let got = resolve_module(&m, &t, "linux", "/home/u").unwrap();
    assert_eq!(
        got,
        vec![Mapping {
            module_name: s("dots"),
            source_path: s("a.txt"),
            dest: s("~/a.txt"),
            link: true,
        }]
    );
}

#[test]
fn later_entry_wins_for_overlapping_path() {
    let mut narrowed = Entry::new("*.txt", Kind::Glob);
    narrowed.link = false;
    narrowed.map_dir = Some(s("texts"));
    let m = module(
        "m",
        Some("/base"),
        vec![Entry::new("**/*", Kind::Glob), narrowed],
        vec![],
    );
    let t = tree(&["a.txt"]);
    let got = resolve_module(&m, &t, "linux", "/home/u").unwrap();
    assert_eq!(
        got,
        vec![Mapping {
            module_name: s("m"),
            source_path: s("a.txt"),
            dest: s("/base/texts/a.txt"),
            link: false,
        }]
    );
}

#[test]
fn flatten_drops_intermediate_directories() {
    let mut e = Entry::new("**/*.txt", Kind::Glob);
    e.flatten = true;
    let m = module("m", Some("base"), vec![e], vec![]);
    let t = tree(&["sub/dir/file.txt", "sub/other/file2.txt"]);
    let got = resolve_module(&m, &t, "linux", "/home/u").unwrap();
    let dests: Vec<&str> = got.iter().map(|r| r.dest.as_str()).collect();
    assert_eq!(dests, vec!["base/file.txt", "base/file2.txt"]);
}

#[test]
fn exclude_applies_to_every_entry() {
    let m = module(
        "m",
        Some("b"),
        vec![Entry::new("**/*", Kind::Glob), Entry::new("README.md", Kind::File)],
        vec!["**/*.md"],
    );
    let t = tree(&["README.md", "a.txt", "docs/x.md"]);
    let got = resolve_module(&m, &t, "linux", "/home/u").unwrap();
    let sources: Vec<&str> = got.iter().map(|r| r.source_path.as_str()).collect();
    assert_eq!(sources, vec!["a.txt"]);
}

#[test]
fn os_restricted_entry_is_skipped() {
    let mut e = Entry::new("**/*", Kind::Glob);
    e.os = vec![s("windows")];
    let m = module("m", Some("b"), vec![e], vec![]);
    let t = tree(&["a.txt"]);
    let got = resolve_module(&m, &t, "linux", "/home/u").unwrap();
    assert!(got.is_empty());

    let mut e = Entry::new("**/*", Kind::Glob);
    e.os = vec![s("windows"), s("linux")];
    let m = module("m", Some("b"), vec![e], vec![]);
    let got = resolve_module(&m, &t, "linux", "/home/u").unwrap();
    assert_eq!(got.len(), 1);
}

#[test]
fn missing_file_entry_fails_the_module() {
    let m = module("m", Some("b"), vec![Entry::new("gone.txt", Kind::File)], vec![]);
    let t = tree(&["a.txt"]);
    assert_eq!(
        resolve_module(&m, &t, "linux", "/home/u"),
        Err(ResolutionError::FileNotFound(s("gone.txt")))
    );
}

#[test]
fn invalid_patterns_fail_the_module() {
    let m = module("m", Some("b"), vec![], vec!["[abc"]);
    let t = tree(&["a.txt"]);
    assert_eq!(
        resolve_module(&m, &t, "linux", "/home/u"),
        Err(ResolutionError::InvalidPattern(s("[abc")))
    );

    let m = module("m", Some("b"), vec![Entry::new("[abc", Kind::Glob)], vec![]);
    assert_eq!(
        resolve_module(&m, &t, "linux", "/home/u"),
        Err(ResolutionError::InvalidPattern(s("[abc")))
    );
}

#[test]
fn colliding_destinations_fail_the_module() {
    let mut e = Entry::new("**/*.txt", Kind::Glob);
    e.flatten = true;
    let m = module("m", Some("b"), vec![e], vec![]);
    let t = tree(&["a/x.txt", "c/x.txt"]);
    assert_eq!(
        resolve_module(&m, &t, "linux", "/home/u"),
        Err(ResolutionError::DuplicateDestination(s("b/x.txt")))
    );
}

#[test]
fn rename_overrides_flatten_and_structure() {
    let mut e = Entry::new("**/*", Kind::Glob);
    e.rename = vec![(s("conf/app.toml"), s("app/config.toml"))];
    let m = module("m", Some("b"), vec![e], vec![]);
    let t = tree(&["conf/app.toml", "other.txt"]);
    let got = resolve_module(&m, &t, "linux", "/home/u").unwrap();
    let dests: Vec<&str> = got.iter().map(|r| r.dest.as_str()).collect();
    assert_eq!(dests, vec!["b/app/config.toml", "b/other.txt"]);
}

#[test]
fn directory_entries_take_whole_subtrees() {
    let m = module("m", Some("b"), vec![Entry::new("conf", Kind::Directory)], vec![]);
    let t = tree(&["conf/a.txt", "conf/sub/b.txt", "config", "confx/c.txt"]);
    let got = resolve_module(&m, &t, "linux", "/home/u").unwrap();
    let sources: Vec<&str> = got.iter().map(|r| r.source_path.as_str()).collect();
    assert_eq!(sources, vec!["conf/a.txt", "conf/sub/b.txt"]);
}

#[test]
fn home_is_the_default_base() {
    let m = module("m", None, vec![], vec![]);
    let t = tree(&["a.txt"]);
    let got = resolve_module(&m, &t, "linux", "/home/u").unwrap();
    assert_eq!(got[0].dest, "/home/u/a.txt");
}

#[test]
fn empty_tree_resolves_to_nothing() {
    let m = module("m", Some("b"), vec![], vec![]);
    let got = resolve_module(&m, &tree(&[]), "linux", "/home/u").unwrap();
    assert!(got.is_empty());
}

#[test]
fn excluded_file_entry_is_no_error() {
    let m = module("m", Some("b"), vec![Entry::new("README.md", Kind::File)], vec!["*.md"]);
    let got = resolve_module(&m, &tree(&["README.md"]), "linux", "/home/u").unwrap();
    assert!(got.is_empty());
}

#[test]
fn cross_module_collision_fails_the_run_before_any_write() {
    let inputs = vec![
        ModuleFiles { module: module("one", Some("b"), vec![], vec![]), files: tree(&["a.txt"]) },
        ModuleFiles { module: module("two", Some("b"), vec![], vec![]), files: tree(&["a.txt"]) },
    ];
    assert_eq!(
        resolve_run(&inputs, "linux", "/home/u"),
        Err(RunError::CrossModuleCollision(s("b/a.txt")))
    );
}

#[test]
fn independent_modules_resolve_in_order() {
    let inputs = vec![
        ModuleFiles { module: module("one", Some("b1"), vec![], vec![]), files: tree(&["a.txt"]) },
        ModuleFiles {
            module: module("two", Some("b2"), vec![Entry::new("gone", Kind::File)], vec![]),
            files: tree(&["a.txt"]),
        },
        ModuleFiles { module: module("three", Some("b3"), vec![], vec![]), files: tree(&["a.txt"]) },
    ];
    let outs = resolve_run(&inputs, "linux", "/home/u").unwrap();
    assert_eq!(outs.len(), 3);
    assert_eq!(outs[0].name, "one");
    assert!(outs[0].outcome.is_ok());
    // a module-local failure does not abort its siblings
    assert_eq!(outs[1].outcome, Err(ResolutionError::FileNotFound(s("gone"))));
    assert_eq!(outs[2].name, "three");
    assert!(outs[2].outcome.is_ok());
}
