//! A file system held in memory: the files and directories that resolution
//! may ask about, each with its kind, its content and its real path.
//!
//! The table is filled from outside, from a disk or by a test, and is only
//! read here. Paths are compared as written: entries are expected under
//! normalised absolute paths, which is how the resolver asks for them. Where
//! a path was entered more than once, the entry made last stands.
//!
//! A table is consistent when every real path in it is absolute and is
//! itself entered, as its own real path and with the kind of what leads to
//! it. The table keeps consistent as long as absolute paths are entered and
//! no file takes the place of a directory or a directory that of a file.
use crate::model::views;
use crate::path::is_absolute;
use vstd::prelude::*;
use vstd::string::StringExecFns;

verus! {

/// What a path names.
#[derive(Debug, PartialEq, Eq)]
pub enum EntryKind {
    /// A regular file, with its text.
    File { content: String },
    Directory,
}

pub enum EntryKindView {
    File { content: Seq<char> },
    Directory,
}

impl View for EntryKind {
    type V = EntryKindView;

    open spec fn view(&self) -> EntryKindView {
        match self {
            EntryKind::File { content } => EntryKindView::File { content: content@ },
            EntryKind::Directory => EntryKindView::Directory,
        }
    }
}

impl Clone for EntryKind {
    fn clone(&self) -> (copy: EntryKind)
        ensures
            copy@ == self@,
    {
        match self {
            EntryKind::File { content } => EntryKind::File { content: content.clone() },
            EntryKind::Directory => EntryKind::Directory,
        }
    }
}

/// One path of the file system.
#[derive(Debug, PartialEq, Eq)]
pub struct Entry {
    pub path: String,
    pub kind: EntryKind,
    /// The path with every symbolic link followed. It differs from `path`
    /// for an alias.
    pub real_path: String,
}

pub struct EntryView {
    pub path: Seq<char>,
    pub kind: EntryKindView,
    pub real_path: Seq<char>,
}

impl View for Entry {
    type V = EntryView;

    open spec fn view(&self) -> EntryView {
        EntryView { path: self.path@, kind: self.kind@, real_path: self.real_path@ }
    }
}

/// The entry that stands for `path`: the last one made under it.
pub open spec fn lookup(entries: Seq<EntryView>, path: Seq<char>) -> Option<EntryView>
    decreases entries.len(),
{
    if entries.len() == 0 {
        None
    } else if entries.last().path == path {
        Some(entries.last())
    } else {
        lookup(entries.drop_last(), path)
    }
}

/// Whether `path` names anything.
pub open spec fn exists_at(entries: Seq<EntryView>, path: Seq<char>) -> bool {
    lookup(entries, path) is Some
}

/// Whether `path` names a regular file.
pub open spec fn is_file(entries: Seq<EntryView>, path: Seq<char>) -> bool {
    lookup(entries, path) matches Some(entry) && entry.kind is File
}

/// Whether `path` names a directory.
pub open spec fn is_directory(entries: Seq<EntryView>, path: Seq<char>) -> bool {
    lookup(entries, path) matches Some(entry) && entry.kind is Directory
}

/// The text of the file at `path`, if there is a file.
pub open spec fn content_of(entries: Seq<EntryView>, path: Seq<char>) -> Option<Seq<char>> {
    match lookup(entries, path) {
        Some(entry) => match entry.kind {
            EntryKindView::File { content } => Some(content),
            EntryKindView::Directory => None,
        },
        None => None,
    }
}

/// The real path of what `path` names, if it names anything.
pub open spec fn real_path_of(entries: Seq<EntryView>, path: Seq<char>) -> Option<Seq<char>> {
    match lookup(entries, path) {
        Some(entry) => Some(entry.real_path),
        None => None,
    }
}

/// Whether two entries are of the same kind: both files or both
/// directories.
pub open spec fn same_kind(first: EntryKindView, second: EntryKindView) -> bool {
    (first is File) == (second is File)
}

/// Whether `path` is a file under its own real path, which is absolute: the
/// identity of a module.
pub open spec fn is_canonical_file(entries: Seq<EntryView>, path: Seq<char>) -> bool {
    &&& is_absolute(path)
    &&& is_file(entries, path)
    &&& real_path_of(entries, path) == Some(path)
}

/// Whether the real path of an entry is absolute and is itself entered, as
/// its own real path and with the kind of the entry.
pub open spec fn settled(entries: Seq<EntryView>, entry: EntryView) -> bool {
    &&& is_absolute(entry.real_path)
    &&& lookup(entries, entry.real_path) matches Some(origin) && origin.real_path
        == entry.real_path && same_kind(entry.kind, origin.kind)
}

/// Whether the table is consistent: the real path of whatever a path names
/// is absolute, and is itself entered as its own real path and with the same
/// kind.
pub open spec fn consistent(entries: Seq<EntryView>) -> bool {
    forall|path: Seq<char>|
        (#[trigger] lookup(entries, path)) is Some ==> settled(
            entries,
            lookup(entries, path)->Some_0,
        )
}

/// Whether a file may be entered at `path` without harm to the table: the
/// path is absolute and names no directory.
pub open spec fn admits_file(entries: Seq<EntryView>, path: Seq<char>) -> bool {
    is_absolute(path) && !is_directory(entries, path)
}

/// Whether a directory may be entered at `path` without harm to the table:
/// the path is absolute and names no file.
pub open spec fn admits_directory(entries: Seq<EntryView>, path: Seq<char>) -> bool {
    is_absolute(path) && !is_file(entries, path)
}

/// Whether `path` may be entered as another name for `target` without harm
/// to the table: `path` is not the real path of anything, unless it is that
/// of `target`.
pub open spec fn admits_link(entries: Seq<EntryView>, path: Seq<char>, target: Seq<char>) -> bool {
    real_path_of(entries, path) != Some(path) || real_path_of(entries, target) == Some(path)
}

/// The view of an optional string.
pub open spec fn text_view(text: Option<String>) -> Option<Seq<char>> {
    match text {
        Some(text) => Some(text@),
        None => None,
    }
}

/// A file system held in memory.
#[derive(Debug, PartialEq, Eq)]
pub struct FileSystem {
    pub entries: Vec<Entry>,
}

impl View for FileSystem {
    type V = Seq<EntryView>;

    open spec fn view(&self) -> Seq<EntryView> {
        views(self.entries@)
    }
}

impl FileSystem {
    /// A file system without entries.
    pub fn new() -> (fs: FileSystem)
        ensures
            fs@ == Seq::<EntryView>::empty(),
    {
        let fs = FileSystem { entries: Vec::new() };
        assert(fs@ =~= Seq::<EntryView>::empty());
        fs
    }

    /// Enters a regular file that is its own real path.
    pub fn add_file(&mut self, path: &str, content: &str)
        ensures
            final(self)@ == old(self)@.push(
                EntryView {
                    path: path@,
                    kind: EntryKindView::File { content: content@ },
                    real_path: path@,
                },
            ),
            consistent(old(self)@) && admits_file(old(self)@, path@) ==> consistent(final(self)@),
    {
        let ghost before = self@;
        let entry = Entry {
            path: String::from_str(path),
            kind: EntryKind::File { content: String::from_str(content) },
            real_path: String::from_str(path),
        };
        self.entries.push(entry);
        assert(self@ =~= before.push(entry@));
        proof {
            if consistent(before) && admits_file(before, path@) {
                lemma_own_entry_keeps_consistent(before, entry@);
            }
        }
    }

    /// Enters a directory that is its own real path.
    pub fn add_directory(&mut self, path: &str)
        ensures
            final(self)@ == old(self)@.push(
                EntryView { path: path@, kind: EntryKindView::Directory, real_path: path@ },
            ),
            consistent(old(self)@) && admits_directory(old(self)@, path@) ==> consistent(
                final(self)@,
            ),
    {
        let ghost before = self@;
        let entry = Entry {
            path: String::from_str(path),
            kind: EntryKind::Directory,
            real_path: String::from_str(path),
        };
        self.entries.push(entry);
        assert(self@ =~= before.push(entry@));
        proof {
            if consistent(before) && admits_directory(before, path@) {
                lemma_own_entry_keeps_consistent(before, entry@);
            }
        }
    }

    /// Enters `path` as another name for what `target` names, with the kind,
    /// content and real path of `target`. A link to nothing is not entered,
    /// and the answer is `false`.
    pub fn add_link(&mut self, path: &str, target: &str) -> (entered: bool)
        ensures
            entered == exists_at(old(self)@, target@),
            match lookup(old(self)@, target@) {
                Some(aim) => final(self)@ == old(self)@.push(
                    EntryView { path: path@, kind: aim.kind, real_path: aim.real_path },
                ),
                None => final(self)@ == old(self)@,
            },
            consistent(old(self)@) && admits_link(old(self)@, path@, target@) ==> consistent(
                final(self)@,
            ),
    {
        let ghost before = self@;
        match self.position(target) {
            Some(index) => {
                let entry = Entry {
                    path: String::from_str(path),
                    kind: self.entries[index].kind.clone(),
                    real_path: self.entries[index].real_path.clone(),
                };
                self.entries.push(entry);
                assert(self@ =~= before.push(entry@));
                proof {
                    if consistent(before) && admits_link(before, path@, target@) {
                        lemma_link_keeps_consistent(before, path@, target@);
                    }
                }
                true
            },
            None => false,
        }
    }

    /// Where the entry that stands for `path` is held.
    fn position(&self, path: &str) -> (found: Option<usize>)
        ensures
            match found {
                Some(index) => index < self.entries.len() && lookup(self@, path@) == Some(
                    self.entries@[index as int]@,
                ),
                None => lookup(self@, path@) is None,
            },
    {
        let wanted = String::from_str(path);
        let mut index = self.entries.len();
        assert(self@.take(index as int) =~= self@);
        while index > 0
            invariant
                index <= self.entries.len(),
                wanted@ == path@,
                lookup(self@, path@) == lookup(self@.take(index as int), path@),
            decreases index,
        {
            let ghost prefix = self@.take(index as int);
            assert(prefix.drop_last() =~= self@.take(index - 1));
            assert(prefix.last() == self.entries@[index - 1]@);
            if self.entries[index - 1].path == wanted {
                return Some(index - 1);
            }
            index = index - 1;
        }
        None
    }

    /// Whether `path` names anything.
    pub fn contains(&self, path: &str) -> (yes: bool)
        ensures
            yes == exists_at(self@, path@),
    {
        self.position(path).is_some()
    }

    /// Whether `path` names a regular file.
    pub fn is_file(&self, path: &str) -> (yes: bool)
        ensures
            yes == is_file(self@, path@),
    {
        match self.position(path) {
            Some(index) => match &self.entries[index].kind {
                EntryKind::File { content } => true,
                EntryKind::Directory => false,
            },
            None => false,
        }
    }

    /// Whether `path` names a directory.
    pub fn is_directory(&self, path: &str) -> (yes: bool)
        ensures
            yes == is_directory(self@, path@),
    {
        match self.position(path) {
            Some(index) => match &self.entries[index].kind {
                EntryKind::File { content } => false,
                EntryKind::Directory => true,
            },
            None => false,
        }
    }

    /// The text of the file at `path`, if there is a file.
    pub fn read_to_string(&self, path: &str) -> (text: Option<String>)
        ensures
            text_view(text) == content_of(self@, path@),
    {
        match self.position(path) {
            Some(index) => match &self.entries[index].kind {
                EntryKind::File { content } => Some(content.clone()),
                EntryKind::Directory => None,
            },
            None => None,
        }
    }

    /// The real path of what `path` names, if it names anything.
    pub fn canonicalize(&self, path: &str) -> (resolved: Option<String>)
        ensures
            text_view(resolved) == real_path_of(self@, path@),
    {
        match self.position(path) {
            Some(index) => Some(self.entries[index].real_path.clone()),
            None => None,
        }
    }
}

/// The real paths of the entries, entry by entry.
pub open spec fn real_paths(entries: Seq<EntryView>) -> Seq<Seq<char>> {
    entries.map_values(|entry: EntryView| entry.real_path)
}

/// The entry that stands for a path is one of the entries.
pub proof fn lemma_lookup_is_entry(entries: Seq<EntryView>, path: Seq<char>)
    requires
        lookup(entries, path) is Some,
    ensures
        entries.contains(lookup(entries, path)->Some_0),
        real_paths(entries).contains(lookup(entries, path)->Some_0.real_path),
    decreases entries.len(),
{
    let found = lookup(entries, path)->Some_0;
    if entries.last().path == path {
        assert(entries[entries.len() - 1] == found);
    } else {
        let rest = entries.drop_last();
        lemma_lookup_is_entry(rest, path);
        let at = choose|at: int| 0 <= at < rest.len() && rest[at] == found;
        assert(entries[at] == found);
    }
    let at = choose|at: int| 0 <= at < entries.len() && entries[at] == found;
    assert(real_paths(entries)[at] == found.real_path);
}

/// In a table with one more entry, the new entry stands for its path and
/// every other path names what it named.
pub proof fn lemma_lookup_push(entries: Seq<EntryView>, entry: EntryView, path: Seq<char>)
    ensures
        lookup(entries.push(entry), path) == if entry.path == path {
            Some(entry)
        } else {
            lookup(entries, path)
        },
{
    assert(entries.push(entry).drop_last() =~= entries);
}

/// A consistent table stays consistent when an entry that is its own real
/// path is made at an absolute path, unless a file takes the place of a
/// directory or a directory that of a file.
pub proof fn lemma_own_entry_keeps_consistent(entries: Seq<EntryView>, entry: EntryView)
    requires
        consistent(entries),
        entry.real_path == entry.path,
        is_absolute(entry.path),
        lookup(entries, entry.path) matches Some(old) ==> same_kind(old.kind, entry.kind),
    ensures
        consistent(entries.push(entry)),
{
    let after = entries.push(entry);
    assert forall|path: Seq<char>| (#[trigger] lookup(after, path)) is Some implies settled(
        after,
        lookup(after, path)->Some_0,
    ) by {
        lemma_lookup_push(entries, entry, path);
        let found = lookup(after, path)->Some_0;
        lemma_lookup_push(entries, entry, found.real_path);
        if path != entry.path {
            assert(lookup(entries, path) == Some(found));
            if found.real_path == entry.path {
                let origin = lookup(entries, found.real_path)->Some_0;
                assert(same_kind(found.kind, origin.kind));
            }
        }
    }
}

/// A consistent table stays consistent when a path is entered as another
/// name for what `target` names, unless the path is the real path of
/// something else.
pub proof fn lemma_link_keeps_consistent(
    entries: Seq<EntryView>,
    path: Seq<char>,
    target: Seq<char>,
)
    requires
        consistent(entries),
        lookup(entries, target) is Some,
        admits_link(entries, path, target),
    ensures
        consistent(
            entries.push(
                EntryView {
                    path,
                    kind: lookup(entries, target)->Some_0.kind,
                    real_path: lookup(entries, target)->Some_0.real_path,
                },
            ),
        ),
{
    let aim = lookup(entries, target)->Some_0;
    let entry = EntryView { path, kind: aim.kind, real_path: aim.real_path };
    let after = entries.push(entry);
    assert forall|other: Seq<char>| (#[trigger] lookup(after, other)) is Some implies settled(
        after,
        lookup(after, other)->Some_0,
    ) by {
        lemma_lookup_push(entries, entry, other);
        let found = lookup(after, other)->Some_0;
        lemma_lookup_push(entries, entry, found.real_path);
        if other == path {
            assert(found == entry);
            let origin = lookup(entries, aim.real_path)->Some_0;
            assert(same_kind(aim.kind, origin.kind));
        } else {
            assert(lookup(entries, other) == Some(found));
            if found.real_path == path {
                let origin = lookup(entries, found.real_path)->Some_0;
                assert(origin.real_path == path);
                assert(real_path_of(entries, path) == Some(path));
                assert(aim.real_path == path);
                assert(same_kind(found.kind, origin.kind));
                let aimed = lookup(entries, aim.real_path)->Some_0;
                assert(same_kind(aim.kind, aimed.kind));
            }
        }
    }
}

} // verus!
