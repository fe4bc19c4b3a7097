//! One matching rule within a module: which source files it selects and how
//! they map to destinations.

use vstd::prelude::*;

verus! {

/// How an entry's `value` is interpreted: a literal file path, a directory
/// whose files are all taken, or a glob pattern.
#[derive(Debug, Clone, Copy, PartialEq, Eq, Structural)]
pub enum Kind {
    File,
    Directory,
    Glob,
}

/// The mathematical content of an [`Entry`].
pub struct EntryView {
    pub kind: Kind,
    pub value: Seq<char>,
    pub link: bool,
    pub map_dir: Option<Seq<char>>,
    pub flatten: bool,
    pub os: Seq<Seq<char>>,
    pub rename: Seq<(Seq<char>, Seq<char>)>,
}

/// One matching rule within a module.
#[derive(Debug, Clone, PartialEq, Eq)]
pub struct Entry {
    /// The type of entry this is.
    pub kind: Kind,
    /// Value to match for this entry, interpreted according to `kind`.
    pub value: String,
    /// Whether or not this entry should be linked when deployed.
    pub link: bool,
    /// Output directory for this entry, relative to the base path.
    pub map_dir: Option<String>,
    /// Whether or not to make matched files flat in the output directory,
    /// regardless of nested structure. Ignored for `Directory` entries.
    pub flatten: bool,
    /// Operating systems that this entry applies to; empty means all.
    pub os: Vec<String>,
    /// Matched relative paths to rename, as `(matched, destination)` pairs;
    /// the first pair whose left side equals the matched path applies.
    pub rename: Vec<(String, String)>,
}

impl View for Entry {
    type V = EntryView;

    open spec fn view(&self) -> EntryView {
        EntryView {
            kind: self.kind,
            value: self.value@,
            link: self.link,
            map_dir: self.map_dir.deep_view(),
            flatten: self.flatten,
            os: self.os.deep_view(),
            rename: self.rename.deep_view(),
        }
    }
}

/// The view of the entry used when a module declares none: link every file,
/// preserving structure, on every platform.
pub open spec fn default_entry_view() -> EntryView {
    EntryView {
        kind: Kind::Glob,
        value: "**/*"@,
        link: true,
        map_dir: None,
        flatten: false,
        os: Seq::empty(),
        rename: Seq::empty(),
    }
}

impl Entry {
    /// A linked entry matching `s` under `kind`, with every option at its
    /// default.
    pub fn new(s: &str, kind: Kind) -> (r: Self)
        ensures
            r@ == (EntryView {
                kind,
                value: s@,
                link: true,
                map_dir: None,
                flatten: false,
                os: Seq::<Seq<char>>::empty(),
                rename: Seq::<(Seq<char>, Seq<char>)>::empty(),
            }),
    {
        let r = Entry {
            kind,
            value: String::from_str(s),
            link: true,
            map_dir: None,
            flatten: false,
            os: Vec::new(),
            rename: Vec::new(),
        };
        proof {
            assert(r.os.deep_view() =~= Seq::<Seq<char>>::empty());
            assert(r.rename.deep_view() =~= Seq::<(Seq<char>, Seq<char>)>::empty());
        }
        r
    }
}

impl Default for Entry {
    /// The entry used when a module declares none: a glob over every file.
    fn default() -> (r: Self)
        ensures
            r@ == default_entry_view(),
    {
        Entry::new("**/*", Kind::Glob)
    }
}

} // verus!
