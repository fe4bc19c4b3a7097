use confman::module::source::{Source, SourceError};
use confman::utils;

fn parse(s: &str) -> Result<Source, SourceError> {
    Source::from_str(s)
}

#[test]
fn make_repo_shorthand() {
    let inputs = vec![
        ("https://github.com/foo/bar.git", Some("foo/bar")),
        ("https://github.com/foo/bar", Some("foo/bar")),
        ("ssh://git@github.com/foo/bar", None),
    ];

    for (s, expected) in inputs {
        let src = parse(s).unwrap();
        match src {
            Source::Git(url) => {
                let s = utils::to_repo_shorthand(&url);
                assert_eq!(s, expected.map(String::from), "url={url:?}")
            }
            Source::Path(_) => panic!("url={s} parsed as a path"),
        }
    }
}

#[test]
fn shorthand_round_trips() {
    for s in ["foo/bar", "Owner-1/repo.name", "a/b"] {
        let src = parse(s).unwrap();
        assert!(matches!(src, Source::Git(_)), "{s} must classify as git");
        assert_eq!(src.to_string(), s);
    }
}

#[test]
fn default_host_url_recovers_shorthand() {
    let src = parse("https://github.com/foo/bar").unwrap();
    assert_eq!(src.to_string(), "foo/bar");
    let src = parse("https://github.com/foo/bar.git").unwrap();
    assert_eq!(src.to_string(), "foo/bar");
}

#[test]
fn other_git_urls_keep_their_text() {
    let src = parse("https://gitlab.com/foo/bar").unwrap();
    assert!(matches!(src, Source::Git(_)));
    assert_eq!(src.to_string(), "https://gitlab.com/foo/bar");

    let src = parse("ssh://git@github.com/foo/bar").unwrap();
    assert_eq!(src.to_string(), "ssh://git@github.com/foo/bar");

    // a deeper path under the default host has no shorthand form
    let src = parse("https://github.com/foo/bar/baz").unwrap();
    assert_eq!(src.to_string(), "https://github.com/foo/bar/baz");
}

#[test]
fn rooted_strings_are_paths() {
    for s in ["/foo/bar", "/x", "~", "~/foo/bar", "\\\\server\\foo\\bar"] {
        match parse(s).unwrap() {
            Source::Path(p) => assert_eq!(p, s),
            Source::Git(_) => panic!("{s} must classify as a path"),
        }
    }
}

#[test]
fn empty_and_whitespace_are_missing_value() {
    assert_eq!(parse(""), Err(SourceError::MissingValue));
    assert_eq!(parse("   \t\n"), Err(SourceError::MissingValue));
}

#[test]
fn unclassifiable_strings_are_unknown() {
    assert_eq!(parse("some plain words"), Err(SourceError::Unknown));
    assert_eq!(parse("~foo"), Err(SourceError::Unknown));
}

#[test]
fn with_git_shorthand_builds_default_host_url() {
    let src = Source::with_git_shorthand("foo/bar").unwrap();
    match &src {
        Source::Git(u) => {
            assert_eq!(u.scheme, "https");
            assert_eq!(u.host.as_deref(), Some("github.com"));
            assert_eq!(u.path, "/foo/bar.git");
            assert_eq!(u.text, "https://github.com/foo/bar.git");
        }
        Source::Path(_) => panic!("shorthand must give a git source"),
    }
    assert_eq!(src.to_string(), "foo/bar");
}

#[test]
fn windows_drive_prefix_is_platform_dependent() {
    let src = Source::parse_platform("C:/Users/foo", true).unwrap();
    match src {
        Source::Path(p) => assert_eq!(p, "C:/Users/foo"),
        Source::Git(_) => panic!("drive paths are paths on Windows"),
    }
    // without the Windows convention the drive letter reads as a URL scheme
    let src = Source::parse_platform("C:/Users/foo", false).unwrap();
    assert!(matches!(src, Source::Git(_)));
}
