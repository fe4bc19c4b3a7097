//! Classification of a module's source descriptor: a remote git repository
//! (possibly given as an `owner/name` shorthand) or a local filesystem path.

use vstd::prelude::*;

use crate::utils;

verus! {

/// Classification failures for a source descriptor string.
#[derive(Debug, Clone, Copy, PartialEq, Eq, Structural)]
pub enum SourceError {
    /// The descriptor is empty or whitespace only.
    MissingValue,
    /// Shorthand expansion produced a string the URL parser rejects.
    InvalidUrl,
    /// The descriptor is neither a shorthand, a parseable URL, nor a
    /// recognizable absolute or home-relative path.
    Unknown,
}

/// The mathematical content of a parsed URL: the components this engine
/// reads, as plain character sequences.
pub struct UrlView {
    pub scheme: Seq<char>,
    pub host: Option<Seq<char>>,
    pub path: Seq<char>,
    pub text: Seq<char>,
}

/// The components of a parsed URL that the engine's logic reads. Produced by
/// the URL parser; the `text` field is the parser's serialization of the
/// whole URL.
#[derive(Debug, Clone, PartialEq, Eq)]
pub struct UrlParts {
    pub scheme: String,
    pub host: Option<String>,
    pub path: String,
    pub text: String,
}

impl View for UrlParts {
    type V = UrlView;

    open spec fn view(&self) -> UrlView {
        UrlView {
            scheme: self.scheme@,
            host: self.host.deep_view(),
            path: self.path@,
            text: self.text@,
        }
    }
}

/// What the URL parser returns on a given string: `None` when it rejects the
/// string, otherwise the components of the parsed URL. The result depends on
/// the string alone.
pub uninterp spec fn url_parse_spec(s: Seq<char>) -> Option<UrlView>;

/// The URL a repository shorthand expands to, under the fixed default host.
pub open spec fn github_url_of(short: Seq<char>) -> Seq<char> {
    "https://github.com/"@ + short + ".git"@
}

/// The owner segment of a shorthand: everything before the separator.
pub open spec fn shorthand_owner(s: Seq<char>) -> Seq<char> {
    s.subrange(0, utils::shorthand_split(s))
}

/// A shorthand whose expansion the URL parser passes through verbatim: the
/// owner segment must not be a `.` or `..` path segment, which URL parsing
/// would normalize away.
pub open spec fn good_shorthand(s: Seq<char>) -> bool {
    utils::repo_shorthand(s) && shorthand_owner(s) != "."@ && shorthand_owner(s) != ".."@
}

/// The parse of a good shorthand's expansion: the components are exactly the
/// composed ones.
pub open spec fn github_view(short: Seq<char>) -> UrlView {
    UrlView {
        scheme: "https"@,
        host: Some("github.com"@),
        path: "/"@ + short + ".git"@,
        text: github_url_of(short),
    }
}

/// Relies on `url::Url::parse` (with `scheme`, `host_str`, `path` and
/// `as_str` reading the components of its result): parsing depends on the
/// input string alone, and an already-normalized
/// `https://github.com/<owner>/<name>.git` URL — ASCII segment characters,
/// lowercase scheme and host, no dot segments, no query or fragment — parses
/// successfully with its scheme, host, path and serialization exactly as
/// written.
#[verifier::external_body]
fn parse_url(s: &str) -> (r: Option<UrlParts>)
    ensures
        r matches Some(u) ==> url_parse_spec(s@) == Some(u@),
        r is None ==> url_parse_spec(s@) is None,
        r is None ==> forall|t: Seq<char>| good_shorthand(t) ==> s@ != #[trigger] github_url_of(t),
        r matches Some(u) ==> forall|t: Seq<char>|
            good_shorthand(t) && s@ == #[trigger] github_url_of(t) ==> u@ == github_view(t),
{
    match url::Url::parse(s) {
        Ok(u) => Some(
            UrlParts {
                scheme: u.scheme().to_string(),
                host: match u.host_str() {
                    Some(h) => Some(h.to_string()),
                    None => None,
                },
                path: u.path().to_string(),
                text: String::from(u),
            },
        ),
        Err(_) => None,
    }
}

/// A scheme that begins with `http`: accepts `http` and `https`.
pub open spec fn http_scheme(s: Seq<char>) -> bool {
    s.len() >= 4 && s[0] == 'h' && s[1] == 't' && s[2] == 't' && s[3] == 'p'
}

/// A path tail ending in a literal `.git` suffix.
pub open spec fn ends_with_git(s: Seq<char>) -> bool {
    s.len() >= 4 && s[s.len() - 4] == '.' && s[s.len() - 3] == 'g' && s[s.len() - 2] == 'i' && s[
        s.len() - 1] == 't'
}

/// The shorthand recovered from a URL path with its leading `/` removed:
/// `owner/repo` with an optional `.git` suffix stripped from `repo`, provided
/// both segments are non-empty runs of repository characters.
pub open spec fn shorthand_of_path(p: Seq<char>) -> Option<Seq<char>> {
    let i = utils::first_slash(p);
    if i >= p.len() {
        None
    } else {
        let author = p.subrange(0, i);
        let rest = p.subrange(i + 1, p.len() as int);
        let repo = if ends_with_git(rest) {
            rest.take(rest.len() - 4)
        } else {
            rest
        };
        if author.len() > 0 && utils::all_repo_chars(author) && repo.len() > 0
            && utils::all_repo_chars(repo) {
            Some(author + "/"@ + repo)
        } else {
            None
        }
    }
}

/// The shorthand a parsed URL round-trips to, when it points at the default
/// host over HTTP(S) and its path has the `owner/repo[.git]` shape.
pub open spec fn spec_to_repo_shorthand(u: UrlView) -> Option<Seq<char>> {
    if u.host matches Some(h) && h == "github.com"@ && http_scheme(u.scheme) {
        let p = if u.path.len() > 0 && u.path[0] == '/' {
            u.path.skip(1)
        } else {
            u.path
        };
        shorthand_of_path(p)
    } else {
        None
    }
}

/// The origin of a module's files: a remote git repository or a local
/// directory.
#[derive(Debug, Clone, PartialEq, Eq)]
pub enum Source {
    Git(UrlParts),
    Path(String),
}

/// The mathematical content of a [`Source`].
pub enum SourceView {
    Git(UrlView),
    Path(Seq<char>),
}

impl View for Source {
    type V = SourceView;

    open spec fn view(&self) -> SourceView {
        match self {
            Source::Git(u) => SourceView::Git(u@),
            Source::Path(p) => SourceView::Path(p@),
        }
    }
}

/// A string that names a filesystem root: absolute (`/...`), a UNC or
/// backslash-rooted form (`\...`), or home-rooted (`~` alone or `~/...`).
pub open spec fn rooted(s: Seq<char>) -> bool {
    s.len() > 0 && (s[0] == '/' || s[0] == '\\' || (s[0] == '~' && (s.len() == 1 || s[1] == '/')))
}

/// What `to_string` returns: the recovered shorthand for a default-host git
/// URL, the full URL text for any other git source, and the path itself for
/// a path source.
pub open spec fn spec_source_to_string(v: SourceView) -> Seq<char> {
    match v {
        SourceView::Git(u) => match spec_to_repo_shorthand(u) {
            Some(s) => s,
            None => u.text,
        },
        SourceView::Path(p) => p,
    }
}

impl Source {
    /// The git source a repository shorthand expands to.
    pub fn with_git_shorthand(s: &str) -> (r: Result<Self, SourceError>)
        ensures
            url_parse_spec(github_url_of(s@)) matches Some(u) ==> (r matches Ok(src) && src@
                == SourceView::Git(u)),
            url_parse_spec(github_url_of(s@)) is None ==> r == Err::<Source, SourceError>(
                SourceError::InvalidUrl,
            ),
            good_shorthand(s@) ==> (r matches Ok(src) && src@ == SourceView::Git(github_view(s@))),
    {
        let mut composed = String::from_str("https://github.com/");
        composed.append(s);
        composed.append(".git");
        assert(composed@ == github_url_of(s@));
        match parse_url(composed.as_str()) {
            Some(u) => Ok(Source::Git(u)),
            None => Err(SourceError::InvalidUrl),
        }
    }

    /// Classify a source descriptor, treating drive-letter prefixes as paths
    /// only when `windows_paths` is set (on Windows targets a drive letter
    /// must be recognized before URL parsing, which would read it as a
    /// scheme).
    pub fn parse_platform(s: &str, windows_paths: bool) -> (r: Result<Self, SourceError>)
        ensures
            utils::empty_or_whitespace(s@) <==> r == Err::<Source, SourceError>(
                SourceError::MissingValue,
            ),
            utils::repo_shorthand(s@) ==> {
                &&& url_parse_spec(github_url_of(s@)) matches Some(u) ==> (r matches Ok(src)
                    && src@ == SourceView::Git(u))
                &&& url_parse_spec(github_url_of(s@)) is None ==> r == Err::<Source, SourceError>(
                    SourceError::InvalidUrl,
                )
            },
            good_shorthand(s@) ==> (r matches Ok(src) && src@ == SourceView::Git(github_view(s@))),
            !utils::repo_shorthand(s@) && windows_paths && utils::maybe_win_path(s@) ==> (r matches
                Ok(src) && src@ == SourceView::Path(s@)),
            rooted(s@) ==> (r matches Ok(src) && src@ == SourceView::Path(s@)),
            !utils::empty_or_whitespace(s@) && !utils::repo_shorthand(s@) && !(windows_paths
                && utils::maybe_win_path(s@)) && !rooted(s@) ==> {
                &&& url_parse_spec(s@) matches Some(u) ==> (r matches Ok(src) && src@
                    == SourceView::Git(u))
                &&& url_parse_spec(s@) is None ==> r == Err::<Source, SourceError>(
                    SourceError::Unknown,
                )
            },
    {
        proof {
            lemma_rooted_excludes(s@);
        }
        if utils::is_empty_or_whitespace(s) {
            return Err(SourceError::MissingValue);
        }
        if utils::is_repo_shorthand(s) {
            proof {
                lemma_shorthand_not_empty(s@);
            }
            return Self::with_git_shorthand(s);
        }
        if windows_paths && utils::is_maybe_win_path(s) {
            return Ok(Source::Path(String::from_str(s)));
        }
        if is_rooted(s) {
            return Ok(Source::Path(String::from_str(s)));
        }
        match parse_url(s) {
            Some(u) => Ok(Source::Git(u)),
            None => Err(SourceError::Unknown),
        }
    }

    /// Classify a source descriptor with this build's path conventions,
    /// where a drive-letter prefix is not a path root.
    pub fn from_str(s: &str) -> (r: Result<Self, SourceError>)
        ensures
            utils::empty_or_whitespace(s@) <==> r == Err::<Source, SourceError>(
                SourceError::MissingValue,
            ),
            utils::repo_shorthand(s@) ==> {
                &&& url_parse_spec(github_url_of(s@)) matches Some(u) ==> (r matches Ok(src)
                    && src@ == SourceView::Git(u))
                &&& url_parse_spec(github_url_of(s@)) is None ==> r == Err::<Source, SourceError>(
                    SourceError::InvalidUrl,
                )
            },
            good_shorthand(s@) ==> (r matches Ok(src) && src@ == SourceView::Git(github_view(s@))),
            rooted(s@) ==> (r matches Ok(src) && src@ == SourceView::Path(s@)),
            !utils::empty_or_whitespace(s@) && !utils::repo_shorthand(s@) && !rooted(s@) ==> {
                &&& url_parse_spec(s@) matches Some(u) ==> (r matches Ok(src) && src@
                    == SourceView::Git(u))
                &&& url_parse_spec(s@) is None ==> r == Err::<Source, SourceError>(
                    SourceError::Unknown,
                )
            },
    {
        Self::parse_platform(s, false)
    }

    /// The persistent form of this source: shorthand-in implies
    /// shorthand-out for default-host git URLs.
    pub fn to_string(&self) -> (r: String)
        ensures
            r@ == spec_source_to_string(self@),
    {
        match self {
            Source::Git(u) => match crate::utils::to_repo_shorthand(u) {
                Some(s) => s,
                None => u.text.clone(),
            },
            Source::Path(p) => p.clone(),
        }
    }
}

/// True when `s` names a filesystem root (see [`rooted`]).
fn is_rooted(s: &str) -> (r: bool)
    ensures
        r == rooted(s@),
{
    let n = s.unicode_len();
    if n == 0 {
        return false;
    }
    let c0 = s.get_char(0);
    c0 == '/' || c0 == '\\' || (c0 == '~' && (n == 1 || s.get_char(1) == '/'))
}

/// Law: a URL of the exact form `https://github.com/<owner>/<repo>[.git]`
/// round-trips to the `owner/repo` shorthand. The `.git`-less form asks that
/// `repo` itself not end in `.git`, which the recovery would strip.
pub proof fn lemma_github_url_recovers_shorthand(
    u: UrlView,
    owner: Seq<char>,
    repo: Seq<char>,
    suffix: bool,
)
    requires
        http_scheme(u.scheme),
        u.host == Some("github.com"@),
        owner.len() > 0,
        utils::all_repo_chars(owner),
        repo.len() > 0,
        utils::all_repo_chars(repo),
        !suffix ==> !ends_with_git(repo),
        u.path == "/"@ + owner + "/"@ + repo + (if suffix {
            ".git"@
        } else {
            Seq::<char>::empty()
        }),
    ensures
        spec_to_repo_shorthand(u) == Some(owner + "/"@ + repo),
        spec_source_to_string(SourceView::Git(u)) == owner + "/"@ + repo,
{
    reveal_strlit("/");
    reveal_strlit(".git");
    reveal_strlit("github.com");
    let tail = if suffix {
        ".git"@
    } else {
        Seq::<char>::empty()
    };
    assert(u.path.len() > 0 && u.path[0] == '/');
    let p = u.path.skip(1);
    assert(p =~= owner + "/"@ + repo + tail);
    let k = owner.len() as int;
    assert forall|j: int| 0 <= j < k implies p[j] != '/' by {
        assert(p[j] == owner[j]);
        assert(utils::repo_char(owner[j]));
    }
    assert(p[k] == '/');
    utils::lemma_first_slash_at(p, k);
    let author = p.subrange(0, k);
    assert(author =~= owner);
    let rest = p.subrange(k + 1, p.len() as int);
    assert(rest =~= repo + tail);
    if suffix {
        assert(ends_with_git(rest));
        assert(rest.take(rest.len() - 4) =~= repo);
    } else {
        assert(rest =~= repo);
    }
    assert(shorthand_of_path(p) == Some(author + "/"@ + repo));
    assert(spec_to_repo_shorthand(u) == Some(owner + "/"@ + repo));
}

/// Law: for every `owner/name` repository shorthand, parsing classifies it
/// as a git source (`from_str`'s contract) and `to_string` recovers the
/// shorthand itself: shorthand-in implies shorthand-out.
pub proof fn lemma_shorthand_round_trip(s: Seq<char>)
    requires
        utils::repo_shorthand(s),
    ensures
        spec_to_repo_shorthand(github_view(s)) == Some(s),
        spec_source_to_string(SourceView::Git(github_view(s))) == s,
{
    reveal_strlit("https");
    reveal_strlit("/");
    let k = utils::shorthand_split(s);
    assert(1 <= k < s.len() - 1 && s[k] == '/' && utils::all_repo_chars(s.subrange(0, k))
        && utils::all_repo_chars(s.subrange(k + 1, s.len() as int)));
    let owner = s.subrange(0, k);
    let name = s.subrange(k + 1, s.len() as int);
    assert(s =~= owner + "/"@ + name);
    let u = github_view(s);
    assert(http_scheme(u.scheme));
    assert(u.path =~= "/"@ + owner + "/"@ + name + ".git"@);
    lemma_github_url_recovers_shorthand(u, owner, name, true);
    assert(spec_to_repo_shorthand(u) == Some(owner + "/"@ + name));
    assert(owner + "/"@ + name =~= s);
}

/// A rooted string is neither empty nor a repository shorthand: its first
/// character is not whitespace and not a repository character.
proof fn lemma_rooted_excludes(s: Seq<char>)
    ensures
        rooted(s) ==> !utils::empty_or_whitespace(s),
        rooted(s) ==> !utils::repo_shorthand(s),
{
    if rooted(s) {
        assert(!utils::white_char(s[0]));
        if utils::repo_shorthand(s) {
            let i = utils::shorthand_split(s);
            assert(utils::all_repo_chars(s.subrange(0, i)));
            assert(s.subrange(0, i)[0] == s[0]);
            assert(utils::repo_char(s[0]));
        }
    }
}

/// A repository shorthand contains a `/`, so it is not whitespace only.
proof fn lemma_shorthand_not_empty(s: Seq<char>)
    requires
        utils::repo_shorthand(s),
    ensures
        !utils::empty_or_whitespace(s),
{
    let i = utils::shorthand_split(s);
    assert(s[i] == '/');
    assert(!utils::white_char(s[i]));
}

} // verus!
