//! Shell-style glob matching over `/`-separated relative paths.
//!
//! Within one path segment, `*` matches any run of characters, `?` matches
//! one character, and `[...]` matches one character from a class (`!` first
//! negates, `a-b` is a range, a trailing `-` is literal; the body runs to the
//! first `]` and must be non-empty). No segment wildcard crosses a `/`. A
//! whole segment `**` matches any number of segments, including none. A
//! pattern with a trailing `/` names a directory and matches every path
//! strictly below a matching segment prefix.

use vstd::prelude::*;

use crate::utils;

verus! {

/// The `/`-separated segments of a path or pattern.
pub open spec fn segments(s: Seq<char>) -> Seq<Seq<char>>
    decreases s.len(),
{
    let i = utils::first_slash(s);
    if 0 <= i < s.len() {
        seq![s.subrange(0, i)] + segments(s.skip(i + 1))
    } else {
        seq![s]
    }
}

/// Whether `p` (a class pattern beginning with `[`) negates its class.
pub open spec fn class_neg(p: Seq<char>) -> bool {
    p.len() > 1 && p[1] == '!'
}

/// Where the class body of `p` begins.
pub open spec fn class_start(p: Seq<char>) -> int {
    if class_neg(p) {
        2
    } else {
        1
    }
}

/// The index of the `]` closing the class of `p`, or past the end when there
/// is none.
pub open spec fn class_close(p: Seq<char>) -> int {
    class_start(p) + utils::first_index_of(p.skip(class_start(p)), ']')
}

/// A well-formed class: a closing `]` exists and the body is non-empty.
pub open spec fn class_ok(p: Seq<char>) -> bool {
    class_start(p) < class_close(p) < p.len()
}

/// Whether `c` is named by the class body `b`: a member character, or inside
/// an `a-b` range.
pub open spec fn member_match(b: Seq<char>, c: char) -> bool
    decreases b.len(),
{
    if b.len() == 0 {
        false
    } else if b.len() >= 3 && b[1] == '-' {
        (b[0] as u32 <= c as u32 && c as u32 <= b[2] as u32) || member_match(b.skip(3), c)
    } else {
        b[0] == c || member_match(b.skip(1), c)
    }
}

/// Whether the class at the head of `p` matches `c`.
pub open spec fn class_matches(p: Seq<char>, c: char) -> bool {
    if class_neg(p) {
        !member_match(p.subrange(class_start(p), class_close(p)), c)
    } else {
        member_match(p.subrange(class_start(p), class_close(p)), c)
    }
}

/// Whether the single-segment pattern `p` matches the segment `s`. A `[`
/// without a well-formed class is a literal character.
pub open spec fn seg_match(p: Seq<char>, s: Seq<char>) -> bool
    decreases p.len(), s.len(),
{
    if p.len() == 0 {
        s.len() == 0
    } else if p[0] == '*' {
        seg_match(p.skip(1), s) || (s.len() > 0 && seg_match(p, s.skip(1)))
    } else if p[0] == '?' {
        s.len() > 0 && seg_match(p.skip(1), s.skip(1))
    } else if p[0] == '[' && class_ok(p) {
        s.len() > 0 && class_matches(p, s[0]) && seg_match(p.skip(class_close(p) + 1), s.skip(1))
    } else {
        s.len() > 0 && s[0] == p[0] && seg_match(p.skip(1), s.skip(1))
    }
}

/// A whole segment `**`, which may match any number of path segments.
pub open spec fn double_star(seg: Seq<char>) -> bool {
    seg.len() == 2 && seg[0] == '*' && seg[1] == '*'
}

/// Whether the segment patterns `ps` match the path segments `ss`.
pub open spec fn segs_match(ps: Seq<Seq<char>>, ss: Seq<Seq<char>>) -> bool
    decreases ps.len(), ss.len(),
{
    if ps.len() == 0 {
        ss.len() == 0
    } else if double_star(ps[0]) {
        segs_match(ps.skip(1), ss) || (ss.len() > 0 && segs_match(ps, ss.skip(1)))
    } else {
        ss.len() > 0 && seg_match(ps[0], ss[0]) && segs_match(ps.skip(1), ss.skip(1))
    }
}

/// A directory pattern (the segments of a pattern whose trailing `/` was
/// removed) matches every path whose segments have a matching proper prefix.
pub open spec fn dir_glob_match(ps: Seq<Seq<char>>, ss: Seq<Seq<char>>) -> bool {
    exists|k: int| 0 <= k < ss.len() && segs_match(ps, #[trigger] ss.take(k))
}

/// Whether the glob pattern `pat` matches the relative path `path`.
pub open spec fn glob_match(pat: Seq<char>, path: Seq<char>) -> bool {
    if pat.len() > 0 && pat[pat.len() - 1] == '/' {
        dir_glob_match(segments(pat.take(pat.len() - 1)), segments(path))
    } else {
        segs_match(segments(pat), segments(path))
    }
}

/// A single-segment pattern whose classes are all well formed.
pub open spec fn valid_seg_pattern(p: Seq<char>) -> bool
    decreases p.len(),
{
    if p.len() == 0 {
        true
    } else if p[0] == '[' {
        class_ok(p) && valid_seg_pattern(p.skip(class_close(p) + 1))
    } else {
        valid_seg_pattern(p.skip(1))
    }
}

/// A pattern every one of whose segments is well formed.
pub open spec fn valid_pattern(pat: Seq<char>) -> bool {
    forall|i: int|
        0 <= i < segments(pat).len() ==> valid_seg_pattern(#[trigger] segments(pat)[i])
}

/// Split `s` at every `/`.
pub fn split_segments(s: &str) -> (r: Vec<String>)
    ensures
        r.deep_view() == segments(s@),
{
    let n = s.unicode_len();
    let mut r: Vec<String> = Vec::new();
    let mut start: usize = 0;
    proof {
        assert(s@.skip(0) =~= s@);
        assert(r.deep_view() =~= Seq::<Seq<char>>::empty());
        assert(segments(s@) =~= r.deep_view() + segments(s@.skip(0)));
    }
    loop
        invariant_except_break
            start <= n,
            n == s@.len(),
            segments(s@) =~= r.deep_view() + segments(s@.skip(start as int)),
        ensures
            r.deep_view() =~= segments(s@),
        decreases n - start,
    {
        let ghost old_r = r.deep_view();
        let ghost rem = s@.skip(start as int);
        let mut i = start;
        while i < n && s.get_char(i) != '/'
            invariant
                start <= i <= n,
                n == s@.len(),
                forall|j: int| start <= j < i ==> s@[j] != '/',
            decreases n - i,
        {
            i += 1;
        }
        proof {
            assert forall|j: int| 0 <= j < i - start implies rem[j] != '/' by {
                assert(rem[j] == s@[start + j]);
            }
            if i == n {
                assert forall|j: int| 0 <= j < rem.len() implies rem[j] != '/' by {
                    assert(rem[j] == s@[start + j]);
                }
            }
            utils::lemma_first_slash_at(rem, i - start);
        }
        let piece = s.substring_char(start, i).to_owned();
        assert(piece@ =~= rem.subrange(0, i - start));
        r.push(piece);
        if i == n {
            proof {
                assert(segments(rem) == seq![rem]);
                assert(rem =~= rem.subrange(0, i - start));
                assert(r.deep_view() =~= old_r.push(rem));
                assert(old_r.push(rem) =~= old_r + seq![rem]);
                assert(r.deep_view() =~= segments(s@));
            }
            break ;
        }
        proof {
            assert(segments(rem) == seq![rem.subrange(0, i - start)] + segments(
                rem.skip(i - start + 1),
            ));
            assert(rem.skip(i - start + 1) =~= s@.skip(i + 1));
            assert(r.deep_view() =~= old_r.push(rem.subrange(0, i - start)));
        }
        start = i + 1;
    }
    r
}

/// Whether the member list `[b, e)` of `p` names `c`.
fn member_match_at(p: &str, b: usize, e: usize, c: char) -> (r: bool)
    requires
        b <= e <= p@.len(),
    ensures
        r == member_match(p@.subrange(b as int, e as int), c),
    decreases e - b,
{
    let ghost body = p@.subrange(b as int, e as int);
    if b == e {
        return false;
    }
    assert(body[0] == p@[b as int]);
    if e - b >= 3 && p.get_char(b + 1) == '-' {
        assert(body[1] == p@[b + 1] && body[2] == p@[b + 2]);
        let lo = p.get_char(b);
        let hi = p.get_char(b + 2);
        if lo as u32 <= c as u32 && c as u32 <= hi as u32 {
            return true;
        }
        let r = member_match_at(p, b + 3, e, c);
        assert(body.skip(3) =~= p@.subrange(b + 3, e as int));
        r
    } else {
        if p.get_char(b) == c {
            return true;
        }
        let r = member_match_at(p, b + 1, e, c);
        assert(body.skip(1) =~= p@.subrange(b + 1, e as int));
        r
    }
}

/// Locate the class at position `i` of `p`: negation flag, body range, and
/// whether it is well formed.
fn scan_class(p: &str, i: usize) -> (r: (bool, usize, usize, bool))
    requires
        i < p@.len(),
        p@[i as int] == '[',
    ensures
        r.0 == class_neg(p@.skip(i as int)),
        r.1 == i + class_start(p@.skip(i as int)),
        r.3 == class_ok(p@.skip(i as int)),
        r.3 ==> r.2 == i + class_close(p@.skip(i as int)) && r.1 < r.2 < p@.len(),
{
    let ghost ps = p@.skip(i as int);
    let n = p.unicode_len();
    let neg = i + 1 < n && p.get_char(i + 1) == '!';
    assert(ps.len() > 1 ==> ps[1] == p@[i + 1]);
    assert(neg == class_neg(ps));
    let bstart = if neg {
        i + 2
    } else {
        i + 1
    };
    let mut e = bstart;
    while e < n && p.get_char(e) != ']'
        invariant
            bstart <= e <= n,
            n == p@.len(),
            forall|j: int| bstart <= j < e ==> p@[j] != ']',
        decreases n - e,
    {
        e += 1;
    }
    proof {
        let tail = ps.skip(class_start(ps));
        assert(tail =~= p@.skip(bstart as int));
        assert forall|j: int| 0 <= j < e - bstart implies tail[j] != ']' by {
            assert(tail[j] == p@[bstart + j]);
        }
        if e == n {
            assert forall|j: int| 0 <= j < tail.len() implies tail[j] != ']' by {
                assert(tail[j] == p@[bstart + j]);
            }
        }
        utils::lemma_first_index_at(tail, ']', e - bstart);
        assert(class_close(ps) == class_start(ps) + (e - bstart));
        assert(i + class_start(ps) == bstart);
    }
    let ok = e < n && e > bstart;
    (neg, bstart, e, ok)
}

/// Whether the pattern suffix `p[i..]` matches the segment suffix `s[j..]`.
fn seg_match_at(p: &str, i: usize, s: &str, j: usize) -> (b: bool)
    requires
        i <= p@.len(),
        j <= s@.len(),
    ensures
        b == seg_match(p@.skip(i as int), s@.skip(j as int)),
    decreases p@.len() - i, s@.len() - j,
{
    let ghost ps = p@.skip(i as int);
    let ghost ss = s@.skip(j as int);
    let np = p.unicode_len();
    let ns = s.unicode_len();
    if i == np {
        return j == ns;
    }
    let c = p.get_char(i);
    assert(ps[0] == c);
    assert(ps.skip(1) =~= p@.skip(i + 1));
    assert(ss.len() > 0 ==> ss[0] == s@[j as int] && ss.skip(1) =~= s@.skip(j + 1));
    if c == '*' {
        if seg_match_at(p, i + 1, s, j) {
            return true;
        }
        j < ns && seg_match_at(p, i, s, j + 1)
    } else if c == '?' {
        j < ns && seg_match_at(p, i + 1, s, j + 1)
    } else if c == '[' {
        let (neg, bstart, e, ok) = scan_class(p, i);
        if !ok {
            // no well-formed class: `[` is a literal character
            return j < ns && s.get_char(j) == '[' && seg_match_at(p, i + 1, s, j + 1);
        }
        if j == ns {
            return false;
        }
        let m = member_match_at(p, bstart, e, s.get_char(j));
        proof {
            assert(ps.subrange(class_start(ps), class_close(ps)) =~= p@.subrange(
                bstart as int,
                e as int,
            ));
        }
        let matched = if neg {
            !m
        } else {
            m
        };
        if !matched {
            return false;
        }
        let r = seg_match_at(p, e + 1, s, j + 1);
        assert(ps.skip(class_close(ps) + 1) =~= p@.skip(e + 1));
        r
    } else {
        j < ns && s.get_char(j) == c && seg_match_at(p, i + 1, s, j + 1)
    }
}

/// Whether the single-segment pattern `p` matches the segment `s`.
pub fn seg_match_str(p: &str, s: &str) -> (b: bool)
    ensures
        b == seg_match(p@, s@),
{
    let r = seg_match_at(p, 0, s, 0);
    assert(p@.skip(0) =~= p@ && s@.skip(0) =~= s@);
    r
}

/// Whether `seg` is the `**` segment.
fn is_double_star(seg: &str) -> (b: bool)
    ensures
        b == double_star(seg@),
{
    seg.unicode_len() == 2 && seg.get_char(0) == '*' && seg.get_char(1) == '*'
}

/// Whether the segment patterns `ps[i..]` match the path segments
/// `ss[j..end)`.
fn segs_match_range(ps: &Vec<String>, i: usize, ss: &Vec<String>, j: usize, end: usize) -> (b: bool)
    requires
        i <= ps@.len(),
        j <= end <= ss@.len(),
    ensures
        b == segs_match(ps.deep_view().skip(i as int), ss.deep_view().subrange(j as int, end as int)),
    decreases ps@.len() - i, end - j,
{
    let ghost psv = ps.deep_view().skip(i as int);
    let ghost ssv = ss.deep_view().subrange(j as int, end as int);
    if i == ps.len() {
        return j == end;
    }
    assert(psv[0] == ps@[i as int]@);
    assert(psv.skip(1) =~= ps.deep_view().skip(i + 1));
    assert(ssv.len() > 0 ==> ssv[0] == ss@[j as int]@ && ssv.skip(1) =~= ss.deep_view().subrange(
        j + 1,
        end as int,
    ));
    if is_double_star(ps[i].as_str()) {
        if segs_match_range(ps, i + 1, ss, j, end) {
            return true;
        }
        j < end && segs_match_range(ps, i, ss, j + 1, end)
    } else {
        if j == end {
            return false;
        }
        if !seg_match_str(ps[i].as_str(), ss[j].as_str()) {
            return false;
        }
        segs_match_range(ps, i + 1, ss, j + 1, end)
    }
}

/// Whether the glob pattern `pat` matches the relative path `path`.
pub fn glob_match_str(pat: &str, path: &str) -> (b: bool)
    ensures
        b == glob_match(pat@, path@),
{
    let np = pat.unicode_len();
    let ss = split_segments(path);
    if np > 0 && pat.get_char(np - 1) == '/' {
        let head = pat.substring_char(0, np - 1);
        assert(head@ =~= pat@.take(np - 1));
        let ps = split_segments(head);
        let m = ss.len();
        let mut k: usize = 0;
        while k < m
            invariant
                k <= m,
                m == ss@.len(),
                pat@.len() > 0 && pat@[pat@.len() - 1] == '/',
                ps.deep_view() == segments(pat@.take(pat@.len() - 1)),
                ss.deep_view() == segments(path@),
                forall|k2: int|
                    0 <= k2 < k ==> !segs_match(ps.deep_view(), #[trigger] ss.deep_view().take(k2)),
            decreases m - k,
        {
            let hit = segs_match_range(&ps, 0, &ss, 0, k);
            proof {
                assert(ps.deep_view().skip(0) =~= ps.deep_view());
                assert(ss.deep_view().subrange(0, k as int) =~= ss.deep_view().take(k as int));
            }
            if hit {
                proof {
                    assert(0 <= k < ss.deep_view().len() && segs_match(
                        ps.deep_view(),
                        ss.deep_view().take(k as int),
                    ));
                    assert(dir_glob_match(ps.deep_view(), ss.deep_view()));
                }
                return true;
            }
            k += 1;
        }
        false
    } else {
        let ps = split_segments(pat);
        let n = ss.len();
        let r = segs_match_range(&ps, 0, &ss, 0, n);
        proof {
            assert(ps.deep_view().skip(0) =~= ps.deep_view());
            assert(ss.deep_view().subrange(0, n as int) =~= ss.deep_view());
        }
        r
    }
}

/// Whether the class structure of the segment suffix `p[i..]` is well
/// formed.
fn valid_seg_at(p: &str, i: usize) -> (b: bool)
    requires
        i <= p@.len(),
    ensures
        b == valid_seg_pattern(p@.skip(i as int)),
    decreases p@.len() - i,
{
    let ghost ps = p@.skip(i as int);
    let np = p.unicode_len();
    if i == np {
        return true;
    }
    assert(ps[0] == p@[i as int]);
    assert(ps.skip(1) =~= p@.skip(i + 1));
    if p.get_char(i) == '[' {
        let (_neg, _bstart, e, ok) = scan_class(p, i);
        if !ok {
            return false;
        }
        let r = valid_seg_at(p, e + 1);
        assert(ps.skip(class_close(ps) + 1) =~= p@.skip(e + 1));
        r
    } else {
        valid_seg_at(p, i + 1)
    }
}

/// Whether every segment of `pat` is a well-formed segment pattern.
pub fn is_valid_pattern(pat: &str) -> (b: bool)
    ensures
        b == valid_pattern(pat@),
{
    let ps = split_segments(pat);
    let n = ps.len();
    let mut i: usize = 0;
    while i < n
        invariant
            i <= n,
            n == ps@.len(),
            ps.deep_view() == segments(pat@),
            forall|j: int| 0 <= j < i ==> valid_seg_pattern(#[trigger] segments(pat@)[j]),
        decreases n - i,
    {
        let ok = valid_seg_at(ps[i].as_str(), 0);
        proof {
            assert(ps@[i as int]@.skip(0) =~= ps.deep_view()[i as int]);
        }
        if !ok {
            return false;
        }
        i += 1;
    }
    true
}

} // verus!
