//! The entry matcher: turns a module's declarative entry list, evaluated
//! against its fetched file tree, into a conflict-checked mapping from
//! relative source paths to absolute destination paths.

use vstd::prelude::*;

use crate::glob;
use crate::module::entry::{default_entry_view, Entry, EntryView, Kind};
use crate::module::Module;
use crate::utils;

verus! {

/// The mathematical content of one [`Mapping`] record.
pub struct MappingView {
    pub module_name: Seq<char>,
    pub source_path: Seq<char>,
    pub dest: Seq<char>,
    pub link: bool,
}

/// One resolved record: a relative source path, the absolute destination it
/// lands at, and whether the entry that produced it deploys it.
#[derive(Debug, Clone, PartialEq, Eq)]
pub struct Mapping {
    pub module_name: String,
    pub source_path: String,
    pub dest: String,
    pub link: bool,
}

impl View for Mapping {
    type V = MappingView;

    open spec fn view(&self) -> MappingView {
        MappingView {
            module_name: self.module_name@,
            source_path: self.source_path@,
            dest: self.dest@,
            link: self.link,
        }
    }
}

/// The views of a sequence of records.
pub open spec fn mappings_view(ms: Seq<Mapping>) -> Seq<MappingView> {
    ms.map_values(|m: Mapping| m@)
}

/// The mathematical content of a [`ResolutionError`].
pub enum ResolutionErrorView {
    FileNotFound(Seq<char>),
    InvalidPattern(Seq<char>),
    DuplicateDestination(Seq<char>),
}

/// Why resolving one module failed; fatal for that module only.
#[derive(Debug, Clone, PartialEq, Eq)]
pub enum ResolutionError {
    /// A `File` entry names a path that is not in the source tree.
    FileNotFound(String),
    /// A glob entry value or an exclude pattern is not well formed.
    InvalidPattern(String),
    /// Two different source paths mapped to the same destination.
    DuplicateDestination(String),
}

impl View for ResolutionError {
    type V = ResolutionErrorView;

    open spec fn view(&self) -> ResolutionErrorView {
        match self {
            ResolutionError::FileNotFound(p) => ResolutionErrorView::FileNotFound(p@),
            ResolutionError::InvalidPattern(p) => ResolutionErrorView::InvalidPattern(p@),
            ResolutionError::DuplicateDestination(p) => ResolutionErrorView::DuplicateDestination(
                p@,
            ),
        }
    }
}

/// `a/b`, without doubling a separator `a` already ends in.
pub open spec fn join_path(a: Seq<char>, b: Seq<char>) -> Seq<char> {
    if a.len() > 0 && a[a.len() - 1] == '/' {
        a + b
    } else {
        a + "/"@ + b
    }
}

/// The base name of a relative path: its last segment.
pub open spec fn last_segment(p: Seq<char>) -> Seq<char> {
    glob::segments(p).last()
}

/// The first rename pair whose left side is `p`, if any.
pub open spec fn rename_lookup(ren: Seq<(Seq<char>, Seq<char>)>, p: Seq<char>) -> Option<Seq<char>>
    decreases ren.len(),
{
    if ren.len() == 0 {
        None
    } else if ren[0].0 == p {
        Some(ren[0].1)
    } else {
        rename_lookup(ren.skip(1), p)
    }
}

/// The destination of `p` relative to the entry's output directory: an
/// explicit rename wins, else flattening keeps only the base name, else the
/// path itself.
pub open spec fn dest_rel(e: EntryView, p: Seq<char>) -> Seq<char> {
    match rename_lookup(e.rename, p) {
        Some(t) => t,
        None => if e.flatten && e.kind != Kind::Directory {
            last_segment(p)
        } else {
            p
        },
    }
}

/// The absolute destination of `p` under `base` for entry `e`.
pub open spec fn dest_of(e: EntryView, base: Seq<char>, p: Seq<char>) -> Seq<char> {
    match e.map_dir {
        Some(d) => join_path(base, join_path(d, dest_rel(e, p))),
        None => join_path(base, dest_rel(e, p)),
    }
}

/// Whether the entry applies on platform `os`: an empty list means every
/// platform.
pub open spec fn entry_applies(e: EntryView, os: Seq<char>) -> bool {
    e.os.len() == 0 || e.os.contains(os)
}

/// Whether `p` lies strictly below the directory `dir` (an optional trailing
/// separator on `dir` is ignored).
pub open spec fn under_dir(dir: Seq<char>, p: Seq<char>) -> bool {
    let d = if dir.len() > 0 && dir[dir.len() - 1] == '/' {
        dir.take(dir.len() - 1)
    } else {
        dir
    };
    p.len() > d.len() && p.take(d.len() as int) == d && p[d.len() as int] == '/'
}

/// Whether entry `e` selects the tree path `p`.
pub open spec fn entry_matches(e: EntryView, p: Seq<char>) -> bool {
    match e.kind {
        Kind::File => p == e.value,
        Kind::Directory => under_dir(e.value, p),
        Kind::Glob => glob::glob_match(e.value, p),
    }
}

/// Whether some exclude pattern matches `p`.
pub open spec fn excluded(p: Seq<char>, ex: Seq<Seq<char>>) -> bool {
    exists|i: int| 0 <= i < ex.len() && glob::glob_match(#[trigger] ex[i], p)
}

/// `acc` with every record for source path `p` removed.
pub open spec fn remove_path(acc: Seq<MappingView>, p: Seq<char>) -> Seq<MappingView>
    decreases acc.len(),
{
    if acc.len() == 0 {
        Seq::empty()
    } else if acc[0].source_path == p {
        remove_path(acc.skip(1), p)
    } else {
        seq![acc[0]] + remove_path(acc.skip(1), p)
    }
}

/// The record entry `e` produces for tree path `p`.
pub open spec fn record_of(name: Seq<char>, e: EntryView, base: Seq<char>, p: Seq<char>) -> MappingView {
    MappingView { module_name: name, source_path: p, dest: dest_of(e, base, p), link: e.link }
}

/// Fold one entry over the tree: each selected, non-excluded path replaces
/// any earlier record with the same source path.
pub open spec fn add_tree(
    acc: Seq<MappingView>,
    name: Seq<char>,
    e: EntryView,
    base: Seq<char>,
    ex: Seq<Seq<char>>,
    tree: Seq<Seq<char>>,
) -> Seq<MappingView>
    decreases tree.len(),
{
    if tree.len() == 0 {
        acc
    } else {
        let acc1 = if entry_matches(e, tree[0]) && !excluded(tree[0], ex) {
            remove_path(acc, tree[0]).push(record_of(name, e, base, tree[0]))
        } else {
            acc
        };
        add_tree(acc1, name, e, base, ex, tree.skip(1))
    }
}

/// Fold the entry list in declaration order. A non-applicable entry is
/// skipped entirely; a glob entry with a malformed pattern, or a `File`
/// entry whose target is missing, fails the module.
pub open spec fn resolve_entries(
    acc: Seq<MappingView>,
    name: Seq<char>,
    base: Seq<char>,
    ex: Seq<Seq<char>>,
    os: Seq<char>,
    tree: Seq<Seq<char>>,
    entries: Seq<EntryView>,
) -> Result<Seq<MappingView>, ResolutionErrorView>
    decreases entries.len(),
{
    if entries.len() == 0 {
        Ok(acc)
    } else {
        let e = entries[0];
        if !entry_applies(e, os) {
            resolve_entries(acc, name, base, ex, os, tree, entries.skip(1))
        } else if e.kind == Kind::Glob && !glob::valid_pattern(e.value) {
            Err(ResolutionErrorView::InvalidPattern(e.value))
        } else if e.kind == Kind::File && !tree.contains(e.value) {
            Err(ResolutionErrorView::FileNotFound(e.value))
        } else {
            resolve_entries(
                add_tree(acc, name, e, base, ex, tree),
                name,
                base,
                ex,
                os,
                tree,
                entries.skip(1),
            )
        }
    }
}

/// The first exclude pattern that is not well formed, if any.
pub open spec fn first_invalid_exclude(ex: Seq<Seq<char>>) -> Option<Seq<char>>
    decreases ex.len(),
{
    if ex.len() == 0 {
        None
    } else if !glob::valid_pattern(ex[0]) {
        Some(ex[0])
    } else {
        first_invalid_exclude(ex.skip(1))
    }
}

/// The destination of the first record whose destination a later record
/// repeats, if any.
pub open spec fn dup_dest_in(ms: Seq<MappingView>) -> Option<Seq<char>>
    decreases ms.len(),
{
    if ms.len() == 0 {
        None
    } else if exists|j: int| 1 <= j < ms.len() && (#[trigger] ms[j]).dest == ms[0].dest {
        Some(ms[0].dest)
    } else {
        dup_dest_in(ms.skip(1))
    }
}

/// The invariant of a resolved mapping: when the duplicate scan finds
/// nothing (as in every `Ok` resolution), destinations are pairwise
/// distinct.
pub proof fn lemma_unique_dests(ms: Seq<MappingView>)
    requires
        dup_dest_in(ms) is None,
    ensures
        forall|i: int, j: int|
            0 <= i < j < ms.len() ==> (#[trigger] ms[i]).dest != (#[trigger] ms[j]).dest,
    decreases ms.len(),
{
    if ms.len() > 0 {
        lemma_unique_dests(ms.skip(1));
        assert forall|i: int, j: int| 0 <= i < j < ms.len() implies (#[trigger] ms[i]).dest != (
        #[trigger] ms[j]).dest by {
            if i == 0 {
                assert(!(exists|k: int|
                    1 <= k < ms.len() && (#[trigger] ms[k]).dest == ms[0].dest));
            } else {
                assert(ms.skip(1)[i - 1] == ms[i]);
                assert(ms.skip(1)[j - 1] == ms[j]);
            }
        }
    }
}

/// The entry list a module is resolved with: the declared entries, or the
/// single default entry when none are declared.
pub open spec fn effective_entries(entries: Seq<EntryView>) -> Seq<EntryView> {
    if entries.len() == 0 {
        seq![default_entry_view()]
    } else {
        entries
    }
}

/// The destination root a module is resolved against: its declared base, or
/// the user's home directory.
pub open spec fn effective_base(base: Option<Seq<char>>, home: Seq<char>) -> Seq<char> {
    match base {
        Some(b) => b,
        None => home,
    }
}

/// What resolving one module returns: exclude patterns are validated first,
/// entries are folded in order, and any destination produced by two
/// different source paths fails the module.
pub open spec fn spec_resolve_module(
    name: Seq<char>,
    base: Option<Seq<char>>,
    entries: Seq<EntryView>,
    ex: Seq<Seq<char>>,
    tree: Seq<Seq<char>>,
    os: Seq<char>,
    home: Seq<char>,
) -> Result<Seq<MappingView>, ResolutionErrorView> {
    match first_invalid_exclude(ex) {
        Some(p) => Err(ResolutionErrorView::InvalidPattern(p)),
        None => match resolve_entries(
            Seq::empty(),
            name,
            effective_base(base, home),
            ex,
            os,
            tree,
            effective_entries(entries),
        ) {
            Err(e) => Err(e),
            Ok(ms) => match dup_dest_in(ms) {
                Some(d) => Err(ResolutionErrorView::DuplicateDestination(d)),
                None => Ok(ms),
            },
        },
    }
}

/// The views of a module's entry list.
pub open spec fn entries_view(es: Seq<Entry>) -> Seq<EntryView> {
    es.map_values(|e: Entry| e@)
}

// ---------------------------------------------------------------------------
// Executable resolution
// ---------------------------------------------------------------------------

/// Whether `v` holds a string equal to `s`.
fn contains_str(v: &Vec<String>, s: &str) -> (r: bool)
    ensures
        r == v.deep_view().contains(s@),
{
    let n = v.len();
    let mut i: usize = 0;
    while i < n
        invariant
            i <= n,
            n == v@.len(),
            forall|j: int| 0 <= j < i ==> v.deep_view()[j] != s@,
        decreases n - i,
    {
        if utils::str_eq(v[i].as_str(), s) {
            assert(v.deep_view()[i as int] == s@);
            return true;
        }
        i += 1;
    }
    false
}

/// The base name of `p`: everything after its last separator.
pub fn base_name(p: &str) -> (r: String)
    ensures
        r@ == last_segment(p@),
{
    let segs = glob::split_segments(p);
    proof {
        lemma_segments_nonempty(p@);
    }
    let r = segs[segs.len() - 1].clone();
    assert(r@ == segs.deep_view().last());
    r
}

/// `segments` always yields at least one segment.
proof fn lemma_segments_nonempty(s: Seq<char>)
    ensures
        glob::segments(s).len() >= 1,
{
}

/// The first rename pair for `p`, if any.
fn rename_lookup_exec(ren: &Vec<(String, String)>, p: &str) -> (r: Option<String>)
    ensures
        r matches Some(t) ==> rename_lookup(ren.deep_view(), p@) == Some(t@),
        r is None ==> rename_lookup(ren.deep_view(), p@) is None,
{
    let n = ren.len();
    let mut i: usize = 0;
    proof {
        assert(ren.deep_view().skip(0) =~= ren.deep_view());
    }
    while i < n
        invariant
            i <= n,
            n == ren@.len(),
            rename_lookup(ren.deep_view(), p@) == rename_lookup(
                ren.deep_view().skip(i as int),
                p@,
            ),
        decreases n - i,
    {
        let ghost rv = ren.deep_view().skip(i as int);
        assert(rv[0] == (ren@[i as int].0@, ren@[i as int].1@));
        assert(rv.skip(1) =~= ren.deep_view().skip(i + 1));
        if utils::str_eq(ren[i].0.as_str(), p) {
            return Some(ren[i].1.clone());
        }
        i += 1;
    }
    assert(ren.deep_view().skip(n as int) =~= Seq::<(Seq<char>, Seq<char>)>::empty());
    None
}

/// The absolute destination of `p` under `base` for entry `e`.
fn dest_of_exec(e: &Entry, base: &str, p: &str) -> (r: String)
    ensures
        r@ == dest_of(e@, base@, p@),
{
    let rel: String = match rename_lookup_exec(&e.rename, p) {
        Some(t) => t,
        None => {
            let flat = e.flatten && !matches!(e.kind, Kind::Directory);
            if flat {
                base_name(p)
            } else {
                String::from_str(p)
            }
        },
    };
    let with_dir: String = match &e.map_dir {
        Some(d) => join_path_exec(d.as_str(), rel.as_str()),
        None => rel,
    };
    join_path_exec(base, with_dir.as_str())
}

/// `a/b`, without doubling a separator `a` already ends in.
fn join_path_exec(a: &str, b: &str) -> (r: String)
    ensures
        r@ == join_path(a@, b@),
{
    let n = a.unicode_len();
    let mut r = String::from_str(a);
    if !(n > 0 && a.get_char(n - 1) == '/') {
        r.append("/");
    }
    r.append(b);
    r
}

/// Whether `p` lies strictly below the directory `dir`.
fn under_dir_exec(dir: &str, p: &str) -> (r: bool)
    ensures
        r == under_dir(dir@, p@),
{
    let nd = dir.unicode_len();
    let dlen = if nd > 0 && dir.get_char(nd - 1) == '/' {
        nd - 1
    } else {
        nd
    };
    let ghost d = if dir@.len() > 0 && dir@[dir@.len() - 1] == '/' {
        dir@.take(dir@.len() - 1)
    } else {
        dir@
    };
    assert(d.len() == dlen);
    assert(forall|j: int| 0 <= j < dlen ==> d[j] == dir@[j]);
    let np = p.unicode_len();
    if !(np > dlen) {
        return false;
    }
    if p.get_char(dlen) != '/' {
        return false;
    }
    let mut i: usize = 0;
    while i < dlen
        invariant
            i <= dlen,
            dlen <= dir@.len(),
            np == p@.len(),
            np > dlen,
            d.len() == dlen,
            forall|j: int| 0 <= j < dlen ==> d[j] == dir@[j],
            forall|j: int| 0 <= j < i ==> p@[j] == dir@[j],
        decreases dlen - i,
    {
        if p.get_char(i) != dir.get_char(i) {
            assert(p@.take(dlen as int)[i as int] != d[i as int]);
            return false;
        }
        i += 1;
    }
    assert(p@.take(dlen as int) =~= d);
    true
}

/// Whether entry `e` selects the tree path `p`.
fn entry_matches_exec(e: &Entry, p: &str) -> (r: bool)
    ensures
        r == entry_matches(e@, p@),
{
    match e.kind {
        Kind::File => utils::str_eq(p, e.value.as_str()),
        Kind::Directory => under_dir_exec(e.value.as_str(), p),
        Kind::Glob => glob::glob_match_str(e.value.as_str(), p),
    }
}

/// Whether some exclude pattern matches `p`.
fn excluded_exec(p: &str, ex: &Vec<String>) -> (r: bool)
    ensures
        r == excluded(p@, ex.deep_view()),
{
    let n = ex.len();
    let mut i: usize = 0;
    while i < n
        invariant
            i <= n,
            n == ex@.len(),
            forall|j: int| 0 <= j < i ==> !glob::glob_match(#[trigger] ex.deep_view()[j], p@),
        decreases n - i,
    {
        if glob::glob_match_str(ex[i].as_str(), p) {
            assert(glob::glob_match(ex.deep_view()[i as int], p@));
            return true;
        }
        i += 1;
    }
    false
}

/// Replace any record for `m`'s source path with `m` itself, at the end.
fn upsert(records: &mut Vec<Mapping>, m: Mapping)
    ensures
        mappings_view(final(records)@) == remove_path(
            mappings_view(old(records)@),
            m@.source_path,
        ).push(m@),
{
    let n = records.len();
    let mut out: Vec<Mapping> = Vec::new();
    let ghost full = mappings_view(records@);
    let mut i: usize = 0;
    proof {
        assert(full.skip(0) =~= full);
        assert(mappings_view(out@) =~= Seq::<MappingView>::empty());
        assert(remove_path(full, m@.source_path) =~= mappings_view(out@) + remove_path(
            full.skip(0),
            m@.source_path,
        ));
    }
    while i < n
        invariant
            i <= n,
            n == records@.len(),
            full == mappings_view(records@),
            remove_path(full, m@.source_path) =~= mappings_view(out@) + remove_path(
                mappings_view(records@).skip(i as int),
                m@.source_path,
            ),
        decreases n - i,
    {
        let ghost rv = mappings_view(records@).skip(i as int);
        assert(rv[0] == records@[i as int]@);
        assert(rv.skip(1) =~= mappings_view(records@).skip(i + 1));
        if !utils::str_eq(records[i].source_path.as_str(), m.source_path.as_str()) {
            let copy = Mapping {
                module_name: records[i].module_name.clone(),
                source_path: records[i].source_path.clone(),
                dest: records[i].dest.clone(),
                link: records[i].link,
            };
            assert(copy@ == records@[i as int]@);
            let ghost before = mappings_view(out@);
            out.push(copy);
            assert(mappings_view(out@) =~= before.push(records@[i as int]@));
        }
        i += 1;
    }
    assert(mappings_view(records@).skip(n as int) =~= Seq::<MappingView>::empty());
    let ghost removed = mappings_view(out@);
    assert(removed =~= remove_path(full, m@.source_path));
    let ghost mv = m@;
    out.push(m);
    assert(mappings_view(out@) =~= removed.push(mv));
    *records = out;
}

/// Resolve one module against its fetched file tree: evaluate its entries in
/// declaration order on platform `os`, apply its excludes, and map every
/// selected file to an absolute destination under its base (or `home`).
pub fn resolve_module(m: &Module, tree: &Vec<String>, os: &str, home: &str) -> (r: Result<
    Vec<Mapping>,
    ResolutionError,
>)
    ensures
        r matches Ok(ms) ==> spec_resolve_module(
            m.name@,
            m.base.deep_view(),
            entries_view(m.entries@),
            m.exclude.deep_view(),
            tree.deep_view(),
            os@,
            home@,
        ) == Ok::<Seq<MappingView>, ResolutionErrorView>(mappings_view(ms@)),
        r matches Err(e) ==> spec_resolve_module(
            m.name@,
            m.base.deep_view(),
            entries_view(m.entries@),
            m.exclude.deep_view(),
            tree.deep_view(),
            os@,
            home@,
        ) == Err::<Seq<MappingView>, ResolutionErrorView>(e@),
{
    let ghost exv = m.exclude.deep_view();
    let ghost treev = tree.deep_view();
    // exclude patterns are validated first
    let nex = m.exclude.len();
    let mut ei: usize = 0;
    proof {
        assert(exv.skip(0) =~= exv);
    }
    while ei < nex
        invariant
            ei <= nex,
            nex == m.exclude@.len(),
            exv == m.exclude.deep_view(),
            first_invalid_exclude(exv) == first_invalid_exclude(exv.skip(ei as int)),
        decreases nex - ei,
    {
        let ghost rem = exv.skip(ei as int);
        proof {
            assert(rem[0] == m.exclude@[ei as int]@);
            assert(rem.skip(1) =~= exv.skip(ei + 1));
        }
        if !glob::is_valid_pattern(m.exclude[ei].as_str()) {
            return Err(ResolutionError::InvalidPattern(m.exclude[ei].clone()));
        }
        ei += 1;
    }
    proof {
        assert(exv.skip(nex as int) =~= Seq::<Seq<char>>::empty());
        assert(first_invalid_exclude(exv) is None);
    }
    // the declared base, or the home directory
    let base: &str = match &m.base {
        Some(b) => b.as_str(),
        None => home,
    };
    assert(base@ == effective_base(m.base.deep_view(), home@));
    // the declared entries, or the single default entry
    let mut default_entries: Vec<Entry> = Vec::new();
    default_entries.push(Entry::default());
    let entries: &Vec<Entry> = if m.entries.len() == 0 {
        &default_entries
    } else {
        &m.entries
    };
    let ghost eff = effective_entries(entries_view(m.entries@));
    proof {
        assert(entries_view(entries@) =~= eff);
    }
    // fold the entries in declaration order
    let mut records: Vec<Mapping> = Vec::new();
    let nen = entries.len();
    let mut i: usize = 0;
    proof {
        assert(eff.skip(0) =~= eff);
        assert(mappings_view(records@) =~= Seq::<MappingView>::empty());
    }
    while i < nen
        invariant
            i <= nen,
            nen == entries@.len(),
            eff == entries_view(entries@),
            eff == effective_entries(entries_view(m.entries@)),
            exv == m.exclude.deep_view(),
            treev == tree.deep_view(),
            first_invalid_exclude(exv) is None,
            base@ == effective_base(m.base.deep_view(), home@),
            resolve_entries(Seq::empty(), m.name@, base@, exv, os@, treev, eff)
                == resolve_entries(
                mappings_view(records@),
                m.name@,
                base@,
                exv,
                os@,
                treev,
                eff.skip(i as int),
            ),
        decreases nen - i,
    {
        let ghost rem = eff.skip(i as int);
        let ghost acc_entry = mappings_view(records@);
        proof {
            assert(rem[0] == entries_view(entries@)[i as int]);
            assert(rem[0] == entries@[i as int]@);
            assert(rem.skip(1) =~= eff.skip(i + 1));
        }
        let e: &Entry = &entries[i];
        let applies = e.os.len() == 0 || contains_str(&e.os, os);
        assert(applies == entry_applies(e@, os@));
        if !applies {
            i += 1;
            continue ;
        }
        let is_glob = matches!(e.kind, Kind::Glob);
        if is_glob && !glob::is_valid_pattern(e.value.as_str()) {
            proof {
                assert(resolve_entries(acc_entry, m.name@, base@, exv, os@, treev, rem) == Err::<
                    Seq<MappingView>,
                    ResolutionErrorView,
                >(ResolutionErrorView::InvalidPattern(e@.value)));
            }
            return Err(ResolutionError::InvalidPattern(e.value.clone()));
        }
        let is_file = matches!(e.kind, Kind::File);
        if is_file && !contains_str(tree, e.value.as_str()) {
            proof {
                assert(resolve_entries(acc_entry, m.name@, base@, exv, os@, treev, rem) == Err::<
                    Seq<MappingView>,
                    ResolutionErrorView,
                >(ResolutionErrorView::FileNotFound(e@.value)));
            }
            return Err(ResolutionError::FileNotFound(e.value.clone()));
        }
        // expand this entry over the tree
        let nt = tree.len();
        let mut t: usize = 0;
        proof {
            assert(treev.skip(0) =~= treev);
        }
        while t < nt
            invariant
                t <= nt,
                nt == tree@.len(),
                exv == m.exclude.deep_view(),
                treev == tree.deep_view(),
                add_tree(acc_entry, m.name@, e@, base@, exv, treev) == add_tree(
                    mappings_view(records@),
                    m.name@,
                    e@,
                    base@,
                    exv,
                    treev.skip(t as int),
                ),
            decreases nt - t,
        {
            let ghost trem = treev.skip(t as int);
            proof {
                assert(trem[0] == tree@[t as int]@);
                assert(trem.skip(1) =~= treev.skip(t + 1));
            }
            let q: &String = &tree[t];
            if entry_matches_exec(e, q.as_str()) && !excluded_exec(q.as_str(), &m.exclude) {
                let dest = dest_of_exec(e, base, q.as_str());
                let rec = Mapping {
                    module_name: m.name.clone(),
                    source_path: q.clone(),
                    dest,
                    link: e.link,
                };
                assert(rec@ == record_of(m.name@, e@, base@, q@));
                upsert(&mut records, rec);
            }
            t += 1;
        }
        proof {
            assert(treev.skip(nt as int) =~= Seq::<Seq<char>>::empty());
            assert(mappings_view(records@) == add_tree(acc_entry, m.name@, e@, base@, exv, treev));
        }
        i += 1;
    }
    proof {
        assert(eff.skip(nen as int) =~= Seq::<EntryView>::empty());
        assert(resolve_entries(Seq::empty(), m.name@, base@, exv, os@, treev, eff)
            == Ok::<Seq<MappingView>, ResolutionErrorView>(mappings_view(records@)));
    }
    // destinations must be unique: two different source paths may not share one
    let ghost cur = mappings_view(records@);
    let nr = records.len();
    let mut a: usize = 0;
    proof {
        assert(cur.skip(0) =~= cur);
    }
    while a < nr
        invariant
            a <= nr,
            nr == records@.len(),
            cur == mappings_view(records@),
            first_invalid_exclude(exv) is None,
            exv == m.exclude.deep_view(),
            treev == tree.deep_view(),
            base@ == effective_base(m.base.deep_view(), home@),
            eff == effective_entries(entries_view(m.entries@)),
            resolve_entries(Seq::empty(), m.name@, base@, exv, os@, treev, eff) == Ok::<
                Seq<MappingView>,
                ResolutionErrorView,
            >(cur),
            dup_dest_in(cur) == dup_dest_in(cur.skip(a as int)),
        decreases nr - a,
    {
        let ghost arem = cur.skip(a as int);
        proof {
            assert(arem[0] == records@[a as int]@);
            assert(arem.skip(1) =~= cur.skip(a + 1));
        }
        let mut b: usize = a + 1;
        while b < nr
            invariant
                a < b <= nr,
                nr == records@.len(),
                cur == mappings_view(records@),
                first_invalid_exclude(exv) is None,
                exv == m.exclude.deep_view(),
                treev == tree.deep_view(),
                base@ == effective_base(m.base.deep_view(), home@),
                eff == effective_entries(entries_view(m.entries@)),
                resolve_entries(Seq::empty(), m.name@, base@, exv, os@, treev, eff) == Ok::<
                    Seq<MappingView>,
                    ResolutionErrorView,
                >(cur),
                dup_dest_in(cur) == dup_dest_in(cur.skip(a as int)),
                forall|j: int| a < j < b ==> (#[trigger] cur[j]).dest != cur[a as int].dest,
            decreases nr - b,
        {
            if utils::str_eq(records[b].dest.as_str(), records[a].dest.as_str()) {
                proof {
                    assert(cur.skip(a as int)[b - a].dest == cur.skip(a as int)[0].dest);
                    assert(dup_dest_in(cur.skip(a as int)) == Some(cur[a as int].dest));
                }
                return Err(ResolutionError::DuplicateDestination(records[a].dest.clone()));
            }
            b += 1;
        }
        proof {
            assert forall|j: int| 1 <= j < arem.len() implies (#[trigger] arem[j]).dest
                != arem[0].dest by {
                assert(arem[j] == cur[a + j]);
            }
        }
        a += 1;
    }
    proof {
        assert(cur.skip(nr as int) =~= Seq::<MappingView>::empty());
        assert(dup_dest_in(cur) is None);
    }
    Ok(records)
}

// ---------------------------------------------------------------------------
// Laws of resolution
// ---------------------------------------------------------------------------

/// The record a resolved mapping holds for source path `p`, if any. Each
/// path has at most one record, so the first found is the record.
pub open spec fn lookup_path(ms: Seq<MappingView>, p: Seq<char>) -> Option<MappingView>
    decreases ms.len(),
{
    if ms.len() == 0 {
        None
    } else if ms[0].source_path == p {
        Some(ms[0])
    } else {
        lookup_path(ms.skip(1), p)
    }
}

/// Whether entry `e` contributes a record for tree path `p`.
pub open spec fn entry_produces(
    e: EntryView,
    os: Seq<char>,
    tree: Seq<Seq<char>>,
    ex: Seq<Seq<char>>,
    p: Seq<char>,
) -> bool {
    entry_applies(e, os) && tree.contains(p) && entry_matches(e, p) && !excluded(p, ex)
}

/// The index of the last entry that contributes a record for `p`, if any.
pub open spec fn last_producer(
    entries: Seq<EntryView>,
    os: Seq<char>,
    tree: Seq<Seq<char>>,
    ex: Seq<Seq<char>>,
    p: Seq<char>,
) -> Option<int>
    decreases entries.len(),
{
    if entries.len() == 0 {
        None
    } else {
        match last_producer(entries.skip(1), os, tree, ex, p) {
            Some(k) => Some(1 + k),
            None => if entry_produces(entries[0], os, tree, ex, p) {
                Some(0int)
            } else {
                None
            },
        }
    }
}

proof fn lemma_lookup_remove_same(acc: Seq<MappingView>, p: Seq<char>)
    ensures
        lookup_path(remove_path(acc, p), p) is None,
    decreases acc.len(),
{
    if acc.len() > 0 {
        lemma_lookup_remove_same(acc.skip(1), p);
        if acc[0].source_path != p {
            let r = seq![acc[0]] + remove_path(acc.skip(1), p);
            assert(r[0] == acc[0]);
            assert(r.skip(1) =~= remove_path(acc.skip(1), p));
        }
    }
}

proof fn lemma_lookup_remove_other(acc: Seq<MappingView>, q: Seq<char>, p: Seq<char>)
    requires
        p != q,
    ensures
        lookup_path(remove_path(acc, q), p) == lookup_path(acc, p),
    decreases acc.len(),
{
    if acc.len() > 0 {
        lemma_lookup_remove_other(acc.skip(1), q, p);
        if acc[0].source_path != q {
            let r = seq![acc[0]] + remove_path(acc.skip(1), q);
            assert(r[0] == acc[0]);
            assert(r.skip(1) =~= remove_path(acc.skip(1), q));
        }
    }
}

proof fn lemma_lookup_push(ms: Seq<MappingView>, m: MappingView, p: Seq<char>)
    ensures
        lookup_path(ms.push(m), p) == (if lookup_path(ms, p) is Some {
            lookup_path(ms, p)
        } else if m.source_path == p {
            Some(m)
        } else {
            None::<MappingView>
        }),
    decreases ms.len(),
{
    if ms.len() == 0 {
        assert(ms.push(m).len() == 1);
        assert(ms.push(m)[0] == m);
        assert(ms.push(m).skip(1) =~= ms);
        assert(lookup_path(ms, p) is None);
        if m.source_path == p {
            assert(lookup_path(ms.push(m), p) == Some(m));
        } else {
            assert(lookup_path(ms.push(m), p) == lookup_path(ms.push(m).skip(1), p));
            assert(lookup_path(ms.push(m), p) is None);
        }
    } else {
        assert(ms.push(m)[0] == ms[0]);
        assert(ms.push(m).skip(1) =~= ms.skip(1).push(m));
        lemma_lookup_push(ms.skip(1), m, p);
        if ms[0].source_path == p {
            assert(lookup_path(ms.push(m), p) == Some(ms[0]));
            assert(lookup_path(ms, p) == Some(ms[0]));
        } else {
            assert(lookup_path(ms.push(m), p) == lookup_path(ms.skip(1).push(m), p));
            assert(lookup_path(ms, p) == lookup_path(ms.skip(1), p));
        }
    }
}

/// A last producer is a valid producing index.
proof fn lemma_last_producer_bounds(
    entries: Seq<EntryView>,
    os: Seq<char>,
    tree: Seq<Seq<char>>,
    ex: Seq<Seq<char>>,
    p: Seq<char>,
)
    ensures
        match last_producer(entries, os, tree, ex, p) {
            Some(k) => 0 <= k < entries.len() && entry_produces(entries[k], os, tree, ex, p),
            None => true,
        },
    decreases entries.len(),
{
    if entries.len() > 0 {
        lemma_last_producer_bounds(entries.skip(1), os, tree, ex, p);
        match last_producer(entries.skip(1), os, tree, ex, p) {
            Some(k) => {
                assert(entries.skip(1)[k] == entries[1 + k]);
            },
            None => {},
        }
    }
}

/// Replacing the record for `m`'s path changes the lookup at that path to
/// `m` and nothing else.
proof fn lemma_lookup_upsert(acc: Seq<MappingView>, m: MappingView, p: Seq<char>)
    ensures
        lookup_path(remove_path(acc, m.source_path).push(m), p) == (if p == m.source_path {
            Some(m)
        } else {
            lookup_path(acc, p)
        }),
{
    lemma_lookup_push(remove_path(acc, m.source_path), m, p);
    if p == m.source_path {
        lemma_lookup_remove_same(acc, p);
    } else {
        lemma_lookup_remove_other(acc, m.source_path, p);
    }
}

proof fn lemma_contains_head_or_tail(tree: Seq<Seq<char>>, p: Seq<char>)
    requires
        tree.len() > 0,
    ensures
        tree.contains(p) == (tree[0] == p || tree.skip(1).contains(p)),
{
    if tree.contains(p) {
        let i = choose|i: int| 0 <= i < tree.len() && tree[i] == p;
        if i > 0 {
            assert(tree.skip(1)[i - 1] == p);
        }
    }
    if tree.skip(1).contains(p) {
        let i = choose|i: int| 0 <= i < tree.skip(1).len() && tree.skip(1)[i] == p;
        assert(tree[i + 1] == p);
    }
}

/// Folding one entry over the tree sets the record of every path the entry
/// selects (and the excludes keep), and touches no other path.
proof fn lemma_add_tree_lookup(
    acc: Seq<MappingView>,
    name: Seq<char>,
    e: EntryView,
    base: Seq<char>,
    ex: Seq<Seq<char>>,
    tree: Seq<Seq<char>>,
    p: Seq<char>,
)
    ensures
        lookup_path(add_tree(acc, name, e, base, ex, tree), p) == (if tree.contains(p)
            && entry_matches(e, p) && !excluded(p, ex) {
            Some(record_of(name, e, base, p))
        } else {
            lookup_path(acc, p)
        }),
    decreases tree.len(),
{
    if tree.len() == 0 {
        assert(!tree.contains(p));
    } else {
        let q = tree[0];
        lemma_contains_head_or_tail(tree, p);
        let acc1 = if entry_matches(e, q) && !excluded(q, ex) {
            remove_path(acc, q).push(record_of(name, e, base, q))
        } else {
            acc
        };
        lemma_add_tree_lookup(acc1, name, e, base, ex, tree.skip(1), p);
        if entry_matches(e, q) && !excluded(q, ex) {
            lemma_lookup_upsert(acc, record_of(name, e, base, q), p);
        }
    }
}

/// The central matcher theorem: in a resolved entry fold, the record for any
/// source path is the one produced by the last entry that selects it; a path
/// no entry selects keeps whatever the fold started from.
pub proof fn lemma_resolve_lookup(
    acc: Seq<MappingView>,
    name: Seq<char>,
    base: Seq<char>,
    ex: Seq<Seq<char>>,
    os: Seq<char>,
    tree: Seq<Seq<char>>,
    entries: Seq<EntryView>,
    p: Seq<char>,
    out: Seq<MappingView>,
)
    requires
        resolve_entries(acc, name, base, ex, os, tree, entries) == Ok::<
            Seq<MappingView>,
            ResolutionErrorView,
        >(out),
    ensures
        match last_producer(entries, os, tree, ex, p) {
            Some(k) => lookup_path(out, p) == Some(record_of(name, entries[k], base, p)),
            None => lookup_path(out, p) == lookup_path(acc, p),
        },
    decreases entries.len(),
{
    if entries.len() > 0 {
        let e = entries[0];
        let rest = entries.skip(1);
        lemma_last_producer_bounds(rest, os, tree, ex, p);
        if !entry_applies(e, os) {
            lemma_resolve_lookup(acc, name, base, ex, os, tree, rest, p, out);
            assert(!entry_produces(e, os, tree, ex, p));
            match last_producer(rest, os, tree, ex, p) {
                Some(k) => {
                    assert(entries[1 + k] == rest[k]);
                },
                None => {},
            }
        } else {
            assert(!(e.kind == Kind::Glob && !glob::valid_pattern(e.value)));
            assert(!(e.kind == Kind::File && !tree.contains(e.value)));
            let acc1 = add_tree(acc, name, e, base, ex, tree);
            lemma_resolve_lookup(acc1, name, base, ex, os, tree, rest, p, out);
            match last_producer(rest, os, tree, ex, p) {
                Some(k) => {
                    assert(entries[1 + k] == rest[k]);
                },
                None => {
                    lemma_add_tree_lookup(acc, name, e, base, ex, tree, p);
                },
            }
        }
    }
}

/// No entry in `entries` contributes a record for `p`.
proof fn lemma_last_producer_none(
    entries: Seq<EntryView>,
    os: Seq<char>,
    tree: Seq<Seq<char>>,
    ex: Seq<Seq<char>>,
    p: Seq<char>,
)
    requires
        forall|k: int|
            0 <= k < entries.len() ==> !entry_produces(#[trigger] entries[k], os, tree, ex, p),
    ensures
        last_producer(entries, os, tree, ex, p) is None,
    decreases entries.len(),
{
    if entries.len() > 0 {
        assert(forall|k: int|
            0 <= k < entries.skip(1).len() ==> entries.skip(1)[k] == entries[k + 1]);
        lemma_last_producer_none(entries.skip(1), os, tree, ex, p);
    }
}

/// The last producer is the producing entry nothing later supersedes.
proof fn lemma_last_producer_at(
    entries: Seq<EntryView>,
    os: Seq<char>,
    tree: Seq<Seq<char>>,
    ex: Seq<Seq<char>>,
    p: Seq<char>,
    j: int,
)
    requires
        0 <= j < entries.len(),
        entry_produces(entries[j], os, tree, ex, p),
        forall|k: int|
            j < k < entries.len() ==> !entry_produces(#[trigger] entries[k], os, tree, ex, p),
    ensures
        last_producer(entries, os, tree, ex, p) == Some(j),
    decreases entries.len(),
{
    assert(forall|k: int| 0 <= k < entries.skip(1).len() ==> entries.skip(1)[k] == entries[k + 1]);
    if j == 0 {
        lemma_last_producer_none(entries.skip(1), os, tree, ex, p);
    } else {
        lemma_last_producer_at(entries.skip(1), os, tree, ex, p, j - 1);
    }
}

/// Law: when two entries both select a path that the excludes keep, the
/// later entry's destination and link flag win for that path.
pub proof fn lemma_later_entry_wins(
    name: Seq<char>,
    base: Seq<char>,
    ex: Seq<Seq<char>>,
    os: Seq<char>,
    tree: Seq<Seq<char>>,
    entries: Seq<EntryView>,
    i: int,
    j: int,
    p: Seq<char>,
    out: Seq<MappingView>,
)
    requires
        resolve_entries(Seq::empty(), name, base, ex, os, tree, entries) == Ok::<
            Seq<MappingView>,
            ResolutionErrorView,
        >(out),
        0 <= i < j < entries.len(),
        entry_produces(entries[i], os, tree, ex, p),
        entry_produces(entries[j], os, tree, ex, p),
        forall|k: int|
            j < k < entries.len() ==> !entry_produces(#[trigger] entries[k], os, tree, ex, p),
    ensures
        lookup_path(out, p) == Some(record_of(name, entries[j], base, p)),
{
    lemma_last_producer_at(entries, os, tree, ex, p, j);
    lemma_resolve_lookup(Seq::empty(), name, base, ex, os, tree, entries, p, out);
}

/// Law: an excluded path never appears in the resolved mapping, whichever
/// entry matched it.
pub proof fn lemma_exclude_removes(
    name: Seq<char>,
    base: Seq<char>,
    ex: Seq<Seq<char>>,
    os: Seq<char>,
    tree: Seq<Seq<char>>,
    entries: Seq<EntryView>,
    p: Seq<char>,
    out: Seq<MappingView>,
)
    requires
        resolve_entries(Seq::empty(), name, base, ex, os, tree, entries) == Ok::<
            Seq<MappingView>,
            ResolutionErrorView,
        >(out),
        excluded(p, ex),
    ensures
        lookup_path(out, p) is None,
{
    assert(forall|k: int|
        0 <= k < entries.len() ==> !entry_produces(#[trigger] entries[k], os, tree, ex, p));
    lemma_last_producer_none(entries, os, tree, ex, p);
    lemma_resolve_lookup(Seq::empty(), name, base, ex, os, tree, entries, p, out);
}

/// Law: an entry whose `os` list does not name the current platform is
/// skipped entirely: resolution proceeds exactly as if the entry were
/// absent, so it contributes no record to the mapping.
pub proof fn lemma_os_skip(
    acc: Seq<MappingView>,
    name: Seq<char>,
    base: Seq<char>,
    ex: Seq<Seq<char>>,
    os: Seq<char>,
    tree: Seq<Seq<char>>,
    entries: Seq<EntryView>,
    k: int,
)
    requires
        0 <= k < entries.len(),
        !entry_applies(entries[k], os),
    ensures
        resolve_entries(acc, name, base, ex, os, tree, entries) == resolve_entries(
            acc,
            name,
            base,
            ex,
            os,
            tree,
            entries.remove(k),
        ),
    decreases entries.len(),
{
    if k == 0 {
        assert(entries.remove(0) =~= entries.skip(1));
    } else {
        let e = entries[0];
        assert(entries.remove(k)[0] == e);
        assert(entries.remove(k).skip(1) =~= entries.skip(1).remove(k - 1));
        assert(entries.skip(1)[k - 1] == entries[k]);
        if !entry_applies(e, os) {
            lemma_os_skip(acc, name, base, ex, os, tree, entries.skip(1), k - 1);
        } else if e.kind == Kind::Glob && !glob::valid_pattern(e.value) {
        } else if e.kind == Kind::File && !tree.contains(e.value) {
        } else {
            lemma_os_skip(
                add_tree(acc, name, e, base, ex, tree),
                name,
                base,
                ex,
                os,
                tree,
                entries.skip(1),
                k - 1,
            );
        }
    }
}

/// Law: a flattening entry that is not directory-kind maps a matched file it
/// does not rename directly under the entry's output directory, by its base
/// name alone.
pub proof fn lemma_flatten_dest(e: EntryView, base: Seq<char>, p: Seq<char>)
    requires
        e.flatten,
        e.kind != Kind::Directory,
        rename_lookup(e.rename, p) is None,
    ensures
        e.map_dir is None ==> dest_of(e, base, p) == join_path(base, last_segment(p)),
        e.map_dir matches Some(d) ==> dest_of(e, base, p) == join_path(
            base,
            join_path(d, last_segment(p)),
        ),
{
}

/// The matcher theorem at the module level: in a successfully resolved
/// module, the record for any source path is the one produced by the last
/// applicable entry that selects it and the excludes keep, and a path no
/// such entry selects has no record.
pub proof fn lemma_module_lookup(
    name: Seq<char>,
    base: Option<Seq<char>>,
    entries: Seq<EntryView>,
    ex: Seq<Seq<char>>,
    tree: Seq<Seq<char>>,
    os: Seq<char>,
    home: Seq<char>,
    out: Seq<MappingView>,
    p: Seq<char>,
)
    requires
        spec_resolve_module(name, base, entries, ex, tree, os, home) == Ok::<
            Seq<MappingView>,
            ResolutionErrorView,
        >(out),
    ensures
        match last_producer(effective_entries(entries), os, tree, ex, p) {
            Some(k) => lookup_path(out, p) == Some(
                record_of(name, effective_entries(entries)[k], effective_base(base, home), p),
            ),
            None => lookup_path(out, p) is None,
        },
{
    assert(resolve_entries(
        Seq::empty(),
        name,
        effective_base(base, home),
        ex,
        os,
        tree,
        effective_entries(entries),
    ) == Ok::<Seq<MappingView>, ResolutionErrorView>(out));
    lemma_resolve_lookup(
        Seq::empty(),
        name,
        effective_base(base, home),
        ex,
        os,
        tree,
        effective_entries(entries),
        p,
        out,
    );
}

/// One module together with its fetched file tree: the relative paths of
/// every file available from its source.
#[derive(Debug, Clone)]
pub struct ModuleFiles {
    pub module: Module,
    pub files: Vec<String>,
}

/// The per-module outcome of a run: module-local failures do not abort
/// sibling modules.
#[derive(Debug, PartialEq, Eq)]
pub struct ModuleResolution {
    pub name: String,
    pub outcome: Result<Vec<Mapping>, ResolutionError>,
}

/// A failure of the whole run, found before any filesystem mutation.
#[derive(Debug, Clone, PartialEq, Eq)]
pub enum RunError {
    /// Two modules resolved a record to the same destination.
    CrossModuleCollision(String),
}

/// What resolving one fetched module returns.
pub open spec fn spec_resolve_of(mf: ModuleFiles, os: Seq<char>, home: Seq<char>) -> Result<
    Seq<MappingView>,
    ResolutionErrorView,
> {
    spec_resolve_module(
        mf.module.name@,
        mf.module.base.deep_view(),
        entries_view(mf.module.entries@),
        mf.module.exclude.deep_view(),
        mf.files.deep_view(),
        os,
        home,
    )
}

/// The view of a per-module outcome.
pub open spec fn outcome_view(o: Result<Vec<Mapping>, ResolutionError>) -> Result<
    Seq<MappingView>,
    ResolutionErrorView,
> {
    match o {
        Ok(ms) => Ok(mappings_view(ms@)),
        Err(e) => Err(e@),
    }
}

/// The records of a successful outcome; a failed module contributes none.
pub open spec fn ok_mappings(o: Result<Seq<MappingView>, ResolutionErrorView>) -> Seq<MappingView> {
    match o {
        Ok(ms) => ms,
        Err(_) => Seq::empty(),
    }
}

/// Whether two record lists share a destination.
pub open spec fn mappings_collide(ms1: Seq<MappingView>, ms2: Seq<MappingView>) -> bool {
    exists|x: int, y: int|
        0 <= x < ms1.len() && 0 <= y < ms2.len() && (#[trigger] ms1[x]).dest == (
        #[trigger] ms2[y]).dest
}

/// Whether any two distinct modules' successful outcomes share a
/// destination.
pub open spec fn cross_collision(outs: Seq<Result<Seq<MappingView>, ResolutionErrorView>>) -> bool {
    exists|i: int, j: int|
        0 <= i < j < outs.len() && mappings_collide(
            ok_mappings(#[trigger] outs[i]),
            ok_mappings(#[trigger] outs[j]),
        )
}

/// The outcomes every fetched module resolves to.
pub open spec fn spec_run_outcomes(
    inputs: Seq<ModuleFiles>,
    os: Seq<char>,
    home: Seq<char>,
) -> Seq<Result<Seq<MappingView>, ResolutionErrorView>> {
    Seq::new(inputs.len(), |k: int| spec_resolve_of(inputs[k], os, home))
}

/// A destination two record lists share, if any.
fn find_collision(a: &Vec<Mapping>, b: &Vec<Mapping>) -> (r: Option<String>)
    ensures
        r matches Some(d) ==> mappings_collide(mappings_view(a@), mappings_view(b@)) && (exists|
            x: int,
            y: int,
        |
            0 <= x < a@.len() && 0 <= y < b@.len() && (#[trigger] mappings_view(a@)[x]).dest == d@
                && (#[trigger] mappings_view(b@)[y]).dest == d@),
        r is None ==> !mappings_collide(mappings_view(a@), mappings_view(b@)),
{
    let na = a.len();
    let nb = b.len();
    let mut x: usize = 0;
    while x < na
        invariant
            x <= na,
            na == a@.len(),
            nb == b@.len(),
            forall|x2: int, y2: int|
                0 <= x2 < x && 0 <= y2 < nb ==> (#[trigger] mappings_view(a@)[x2]).dest != (
                #[trigger] mappings_view(b@)[y2]).dest,
        decreases na - x,
    {
        let mut y: usize = 0;
        while y < nb
            invariant
                x < na,
                y <= nb,
                na == a@.len(),
                nb == b@.len(),
                forall|y2: int|
                    0 <= y2 < y ==> (#[trigger] mappings_view(b@)[y2]).dest != mappings_view(
                        a@,
                    )[x as int].dest,
            decreases nb - y,
        {
            if utils::str_eq(a[x].dest.as_str(), b[y].dest.as_str()) {
                assert(mappings_view(a@)[x as int].dest == mappings_view(b@)[y as int].dest);
                return Some(a[x].dest.clone());
            }
            y += 1;
        }
        x += 1;
    }
    None
}

/// Resolve every fetched module independently, then refuse the whole run if
/// two modules' successful mappings share a destination: such a run fails
/// before any filesystem mutation. Module-local failures are collected and
/// do not abort sibling modules.
pub fn resolve_run(inputs: &Vec<ModuleFiles>, os: &str, home: &str) -> (r: Result<
    Vec<ModuleResolution>,
    RunError,
>)
    ensures
        r matches Ok(outs) ==> {
            &&& outs@.len() == inputs@.len()
            &&& forall|k: int|
                0 <= k < outs@.len() ==> (#[trigger] outs@[k]).name@ == inputs@[k].module.name@
                    && outcome_view(outs@[k].outcome) == spec_run_outcomes(inputs@, os@, home@)[k]
            &&& !cross_collision(spec_run_outcomes(inputs@, os@, home@))
        },
        r matches Err(e) ==> cross_collision(spec_run_outcomes(inputs@, os@, home@)),
{
    let ghost souts = spec_run_outcomes(inputs@, os@, home@);
    let n = inputs.len();
    let mut outs: Vec<ModuleResolution> = Vec::new();
    let mut k: usize = 0;
    while k < n
        invariant
            k <= n,
            n == inputs@.len(),
            souts == spec_run_outcomes(inputs@, os@, home@),
            outs@.len() == k,
            forall|j: int|
                0 <= j < k ==> (#[trigger] outs@[j]).name@ == inputs@[j].module.name@
                    && outcome_view(outs@[j].outcome) == souts[j],
        decreases n - k,
    {
        let input = &inputs[k];
        let outcome = resolve_module(&input.module, &input.files, os, home);
        assert(outcome_view(outcome) == souts[k as int]);
        outs.push(ModuleResolution { name: input.module.name.clone(), outcome });
        k += 1;
    }
    // the global pre-mutation check: no two modules may share a destination
    let empty_records: Vec<Mapping> = Vec::new();
    let mut i: usize = 0;
    while i < n
        invariant
            i <= n,
            n == inputs@.len(),
            souts == spec_run_outcomes(inputs@, os@, home@),
            outs@.len() == n,
            empty_records@.len() == 0,
            forall|j: int|
                0 <= j < n ==> (#[trigger] outs@[j]).name@ == inputs@[j].module.name@
                    && outcome_view(outs@[j].outcome) == souts[j],
            forall|i2: int, j2: int|
                0 <= i2 < i && i2 < j2 < n ==> !mappings_collide(
                    ok_mappings(#[trigger] souts[i2]),
                    ok_mappings(#[trigger] souts[j2]),
                ),
        decreases n - i,
    {
        let mi: &Vec<Mapping> = match &outs[i].outcome {
            Ok(v) => v,
            Err(_) => &empty_records,
        };
        assert(mappings_view(mi@) =~= ok_mappings(souts[i as int]));
        let mut j: usize = i + 1;
        while j < n
            invariant
                i < j <= n,
                n == inputs@.len(),
                souts == spec_run_outcomes(inputs@, os@, home@),
                outs@.len() == n,
                empty_records@.len() == 0,
                mappings_view(mi@) == ok_mappings(souts[i as int]),
                forall|j2: int|
                    0 <= j2 < n ==> outcome_view((#[trigger] outs@[j2]).outcome) == souts[j2],
                forall|j2: int|
                    i < j2 < j ==> !mappings_collide(
                        ok_mappings(souts[i as int]),
                        ok_mappings(#[trigger] souts[j2]),
                    ),
            decreases n - j,
        {
            let mj: &Vec<Mapping> = match &outs[j].outcome {
                Ok(v) => v,
                Err(_) => &empty_records,
            };
            assert(mappings_view(mj@) =~= ok_mappings(souts[j as int]));
            if let Some(d) = find_collision(mi, mj) {
                proof {
                    assert(mappings_collide(
                        ok_mappings(souts[i as int]),
                        ok_mappings(souts[j as int]),
                    ));
                    assert(cross_collision(souts));
                }
                return Err(RunError::CrossModuleCollision(d));
            }
            j += 1;
        }
        i += 1;
    }
    proof {
        assert(!cross_collision(souts));
    }
    Ok(outs)
}

} // verus!
