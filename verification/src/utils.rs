//! Character and string predicates used to classify module sources.

use vstd::prelude::*;

use crate::module::source::{ends_with_git, http_scheme, spec_to_repo_shorthand, UrlParts};

verus! {

/// Characters with the Unicode `White_Space` property, the set recognized by
/// `char::is_whitespace`.
pub open spec fn white_char(c: char) -> bool {
    (9 <= c as u32 && c as u32 <= 13) || c as u32 == 0x20 || c as u32 == 0x85 || c as u32 == 0xA0
        || c as u32 == 0x1680 || (0x2000 <= c as u32 && c as u32 <= 0x200A) || c as u32 == 0x2028
        || c as u32 == 0x2029 || c as u32 == 0x202F || c as u32 == 0x205F || c as u32 == 0x3000
}

/// A string that carries no information: empty, or whitespace only.
pub open spec fn empty_or_whitespace(s: Seq<char>) -> bool {
    forall|i: int| 0 <= i < s.len() ==> white_char(#[trigger] s[i])
}

/// Characters allowed in the two segments of an `owner/name` repository
/// shorthand: ASCII alphanumerics, `_`, `-` and `.`.
pub open spec fn repo_char(c: char) -> bool {
    ('a' as u32 <= c as u32 && c as u32 <= 'z' as u32) || ('A' as u32 <= c as u32 && c as u32
        <= 'Z' as u32) || ('0' as u32 <= c as u32 && c as u32 <= '9' as u32) || c == '_' || c == '-'
        || c == '.'
}

pub open spec fn all_repo_chars(s: Seq<char>) -> bool {
    forall|i: int| 0 <= i < s.len() ==> repo_char(#[trigger] s[i])
}

/// An `owner/name` repository shorthand: exactly one `/`, separating two
/// non-empty runs of repository characters.
pub open spec fn repo_shorthand(s: Seq<char>) -> bool {
    exists|i: int|
        1 <= i < s.len() - 1 && #[trigger] s[i] == '/' && all_repo_chars(s.subrange(0, i))
            && all_repo_chars(s.subrange(i + 1, s.len() as int))
}

/// The owner segment of a shorthand: everything before the first `/`.
pub open spec fn shorthand_split(s: Seq<char>) -> int {
    choose|i: int|
        1 <= i < s.len() - 1 && #[trigger] s[i] == '/' && all_repo_chars(s.subrange(0, i))
            && all_repo_chars(s.subrange(i + 1, s.len() as int))
}

/// A string that looks like a Windows drive-letter path: an ASCII letter
/// followed by `:`.
pub open spec fn maybe_win_path(s: Seq<char>) -> bool {
    s.len() >= 2 && (('a' as u32 <= s[0] as u32 && s[0] as u32 <= 'z' as u32) || ('A' as u32
        <= s[0] as u32 && s[0] as u32 <= 'Z' as u32)) && s[1] == ':'
}

fn is_white_char(c: char) -> (r: bool)
    ensures
        r == white_char(c),
{
    let u = c as u32;
    (9 <= u && u <= 13) || u == 0x20 || u == 0x85 || u == 0xA0 || u == 0x1680 || (0x2000 <= u && u
        <= 0x200A) || u == 0x2028 || u == 0x2029 || u == 0x202F || u == 0x205F || u == 0x3000
}

/// True when `s` is empty or contains only whitespace characters.
pub fn is_empty_or_whitespace(s: &str) -> (r: bool)
    ensures
        r == empty_or_whitespace(s@),
{
    let n = s.unicode_len();
    let mut i: usize = 0;
    while i < n
        invariant
            n == s@.len(),
            i <= n,
            forall|j: int| 0 <= j < i ==> white_char(#[trigger] s@[j]),
        decreases n - i,
    {
        if !is_white_char(s.get_char(i)) {
            return false;
        }
        i += 1;
    }
    true
}

/// True when `c` may appear in a repository shorthand segment.
pub fn is_repo_char(c: char) -> (r: bool)
    ensures
        r == repo_char(c),
{
    let u = c as u32;
    ('a' as u32 <= u && u <= 'z' as u32) || ('A' as u32 <= u && u <= 'Z' as u32) || ('0' as u32 <= u
        && u <= '9' as u32) || c == '_' || c == '-' || c == '.'
}

/// True when every character of `s` in positions `[from, to)` is a
/// repository character.
fn all_repo_chars_in(s: &str, from: usize, to: usize) -> (r: bool)
    requires
        from <= to <= s@.len(),
    ensures
        r == all_repo_chars(s@.subrange(from as int, to as int)),
{
    let mut i = from;
    while i < to
        invariant
            from <= i <= to <= s@.len(),
            forall|j: int| from <= j < i ==> repo_char(#[trigger] s@[j]),
        decreases to - i,
    {
        if !is_repo_char(s.get_char(i)) {
            assert(!all_repo_chars(s@.subrange(from as int, to as int))) by {
                assert(s@.subrange(from as int, to as int)[i - from] == s@[i as int]);
            }
            return false;
        }
        i += 1;
    }
    assert forall|j: int| 0 <= j < to - from implies repo_char(
        #[trigger] s@.subrange(from as int, to as int)[j],
    ) by {
        assert(s@.subrange(from as int, to as int)[j] == s@[from + j]);
    }
    true
}

/// True when `s` is an `owner/name` repository shorthand.
pub fn is_repo_shorthand(s: &str) -> (r: bool)
    ensures
        r == repo_shorthand(s@),
{
    let n = s.unicode_len();
    // find the first separator
    let mut i: usize = 0;
    while i < n && s.get_char(i) != '/'
        invariant
            n == s@.len(),
            i <= n,
            forall|j: int| 0 <= j < i ==> s@[j] != '/',
        decreases n - i,
    {
        i += 1;
    }
    if i == 0 || i >= n || i + 1 >= n {
        // no separator, or an empty owner or name segment
        assert(!repo_shorthand(s@)) by {
            if repo_shorthand(s@) {
                let k = shorthand_split(s@);
                if i < k {
                    assert(all_repo_chars(s@.subrange(0, k)));
                    assert(s@.subrange(0, k)[i as int] == s@[i as int]);
                }
            }
        }
        return false;
    }
    let owner_ok = all_repo_chars_in(s, 0, i);
    let name_ok = all_repo_chars_in(s, i + 1, n);
    if owner_ok && name_ok {
        assert(repo_shorthand(s@)) by {
            assert(1 <= i < s@.len() - 1 && s@[i as int] == '/');
        }
        true
    } else {
        assert(!repo_shorthand(s@)) by {
            if repo_shorthand(s@) {
                let k = shorthand_split(s@);
                // the witness separator is the first one, i.e. k == i
                if k < i {
                    assert(s@[k] != '/');
                }
                if i < k {
                    assert(all_repo_chars(s@.subrange(0, k)));
                    assert(s@.subrange(0, k)[i as int] == s@[i as int]);
                    assert(repo_char('/')) by {
                        assert(s@[i as int] == '/');
                    }
                }
            }
        }
        false
    }
}

/// True when `s` begins with a Windows drive-letter prefix such as `C:`.
pub fn is_maybe_win_path(s: &str) -> (r: bool)
    ensures
        r == maybe_win_path(s@),
{
    let n = s.unicode_len();
    if n < 2 {
        return false;
    }
    let c0 = s.get_char(0);
    let c1 = s.get_char(1);
    let u = c0 as u32;
    (('a' as u32 <= u && u <= 'z' as u32) || ('A' as u32 <= u && u <= 'Z' as u32)) && c1 == ':'
}

/// True when `b@` equals `a@` (character-wise string equality).
pub fn str_eq(a: &str, b: &str) -> (r: bool)
    ensures
        r == (a@ == b@),
{
    let n = a.unicode_len();
    if n != b.unicode_len() {
        return false;
    }
    let mut i: usize = 0;
    while i < n
        invariant
            n == a@.len() == b@.len(),
            i <= n,
            forall|j: int| 0 <= j < i ==> a@[j] == b@[j],
        decreases n - i,
    {
        if a.get_char(i) != b.get_char(i) {
            return false;
        }
        i += 1;
    }
    assert(a@ =~= b@);
    true
}

/// The index of the first occurrence of `c` in `s`, or `s.len()` when there
/// is none.
pub open spec fn first_index_of(s: Seq<char>, c: char) -> int
    decreases s.len(),
{
    if s.len() == 0 {
        0
    } else if s[0] == c {
        0
    } else {
        1 + first_index_of(s.skip(1), c)
    }
}

/// `first_index_of` is the unique such position: everything before it is not
/// `c`, and it is `c` itself unless the string has none.
pub proof fn lemma_first_index_at(s: Seq<char>, c: char, i: int)
    requires
        0 <= i <= s.len(),
        forall|j: int| 0 <= j < i ==> s[j] != c,
        i < s.len() ==> s[i] == c,
        i == s.len() ==> forall|j: int| 0 <= j < s.len() ==> s[j] != c,
    ensures
        first_index_of(s, c) == i,
    decreases i,
{
    if i > 0 {
        assert(s[0] != c);
        lemma_first_index_at(s.skip(1), c, i - 1);
    }
}

/// The index of the first `/` in `s`, or `s.len()` when there is none.
pub open spec fn first_slash(s: Seq<char>) -> int {
    first_index_of(s, '/')
}

/// `first_slash` is the unique separator position: everything before it is
/// not `/`, and it is `/` itself unless the string has none.
pub proof fn lemma_first_slash_at(s: Seq<char>, i: int)
    requires
        0 <= i <= s.len(),
        forall|j: int| 0 <= j < i ==> s[j] != '/',
        i < s.len() ==> s[i] == '/',
        i == s.len() ==> forall|j: int| 0 <= j < s.len() ==> s[j] != '/',
    ensures
        first_slash(s) == i,
{
    lemma_first_index_at(s, '/', i);
}

/// The `owner/repo` shorthand a parsed URL round-trips to, when it points at
/// the default host over HTTP(S) and its path has the `owner/repo[.git]`
/// shape; `None` otherwise.
pub fn to_repo_shorthand(url: &UrlParts) -> (r: Option<String>)
    ensures
        r matches Some(s) ==> spec_to_repo_shorthand(url@) == Some(s@),
        r is None ==> spec_to_repo_shorthand(url@) is None,
{
    let h = match &url.host {
        Some(h) => h,
        None => {
            return None;
        },
    };
    if !str_eq(h.as_str(), "github.com") {
        return None;
    }
    let scheme = url.scheme.as_str();
    if !(scheme.unicode_len() >= 4 && scheme.get_char(0) == 'h' && scheme.get_char(1) == 't'
        && scheme.get_char(2) == 't' && scheme.get_char(3) == 'p') {
        assert(!http_scheme(url@.scheme));
        return None;
    }
    let path = url.path.as_str();
    let n = path.unicode_len();
    let start: usize = if n > 0 && path.get_char(0) == '/' {
        1
    } else {
        0
    };
    let ghost p = if url@.path.len() > 0 && url@.path[0] == '/' {
        url@.path.skip(1)
    } else {
        url@.path
    };
    assert(p =~= path@.subrange(start as int, n as int));
    // find the separator between the owner and the repository segment
    let mut i = start;
    while i < n && path.get_char(i) != '/'
        invariant
            start <= i <= n,
            n == path@.len(),
            forall|j: int| start <= j < i ==> path@[j] != '/',
        decreases n - i,
    {
        i += 1;
    }
    proof {
        assert forall|j: int| 0 <= j < i - start implies p[j] != '/' by {
            assert(p[j] == path@[start + j]);
        }
        lemma_first_slash_at(p, i - start);
    }
    if i >= n {
        return None;
    }
    let ghost author = p.subrange(0, i - start);
    let ghost rest = p.subrange(i - start + 1, p.len() as int);
    assert(author =~= path@.subrange(start as int, i as int));
    assert(rest =~= path@.subrange(i + 1, n as int));
    // strip an optional `.git` suffix from the repository segment
    let has_git_suffix = n - (i + 1) >= 4 && path.get_char(n - 4) == '.' && path.get_char(n - 3)
        == 'g' && path.get_char(n - 2) == 'i' && path.get_char(n - 1) == 't';
    assert(has_git_suffix == ends_with_git(rest));
    let end = if has_git_suffix {
        n - 4
    } else {
        n
    };
    let ghost repo = if ends_with_git(rest) {
        rest.take(rest.len() - 4)
    } else {
        rest
    };
    assert(repo =~= path@.subrange(i + 1, end as int));
    if i == start {
        return None;
    }
    if end <= i + 1 {
        return None;
    }
    if !all_repo_chars_in(path, start, i) {
        return None;
    }
    if !all_repo_chars_in(path, i + 1, end) {
        return None;
    }
    let mut out = path.substring_char(start, i).to_owned();
    out.append("/");
    let tail = path.substring_char(i + 1, end);
    out.append(tail);
    assert(out@ == author + "/"@ + repo);
    Some(out)
}

/// The default for a boolean field that is on unless stated otherwise.
pub fn default_true() -> (r: bool)
    ensures
        r == true,
{
    true
}

/// True when `*b` is set; mirror of [`is_false`].
pub fn is_true(b: &bool) -> (r: bool)
    ensures
        r == *b,
{
    *b
}

/// True when `*b` is cleared; mirror of [`is_true`].
pub fn is_false(b: &bool) -> (r: bool)
    ensures
        r == !*b,
{
    !*b
}

} // verus!
