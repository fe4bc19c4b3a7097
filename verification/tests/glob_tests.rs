use confman::glob::{glob_match_str, is_valid_pattern};

#[test]
fn default_glob_matches_everything() {
    assert!(glob_match_str("**/*", "a.txt"));
    assert!(glob_match_str("**/*", "sub/dir/file.txt"));
    assert!(glob_match_str("**/*", ".git/config"));
}

#[test]
fn single_star_stays_within_one_segment() {
    assert!(glob_match_str("*.md", "README.md"));
    assert!(!glob_match_str("*.md", "sub/x.md"));
    assert!(glob_match_str("sub/*.txt", "sub/a.txt"));
    assert!(!glob_match_str("sub/*.txt", "sub/d/a.txt"));
}

#[test]
fn double_star_crosses_any_depth() {
    assert!(glob_match_str("**/*.md", "README.md"));
    assert!(glob_match_str("**/*.md", "sub/deep/x.md"));
    assert!(glob_match_str("a/**/b", "a/b"));
    assert!(glob_match_str("a/**/b", "a/x/y/b"));
    assert!(!glob_match_str("a/**/b", "a/x/y/c"));
}

#[test]
fn question_mark_matches_one_character() {
    assert!(glob_match_str("?at.txt", "cat.txt"));
    assert!(!glob_match_str("?at.txt", "chat.txt"));
    assert!(!glob_match_str("?at.txt", "at.txt"));
}

#[test]
fn classes_and_ranges() {
    assert!(glob_match_str("[abc]at", "bat"));
    assert!(!glob_match_str("[abc]at", "dat"));
    assert!(!glob_match_str("[!abc]at", "bat"));
    assert!(glob_match_str("[!abc]at", "dat"));
    assert!(glob_match_str("[a-z]x", "qx"));
    assert!(!glob_match_str("[a-z]x", "Qx"));
}

#[test]
fn trailing_slash_names_a_directory() {
    assert!(glob_match_str(".git/", ".git/config"));
    assert!(glob_match_str(".git/", ".git/hooks/pre-commit"));
    assert!(!glob_match_str(".git/", ".gitconfig"));
    assert!(!glob_match_str(".git/", ".git"));
}

#[test]
fn pattern_validity() {
    assert!(is_valid_pattern("**/*"));
    assert!(is_valid_pattern("[abc]x"));
    assert!(is_valid_pattern("plain/path.txt"));
    assert!(!is_valid_pattern("[abc"));
    assert!(!is_valid_pattern("x/[!]y"));
}
