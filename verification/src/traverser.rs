//! Directory traversal as a work list: the library decides which directory
//! is read next and what becomes of each entry; the caller reads.
use crate::text::texts;
use vstd::hash_map::StringHashMap;
use vstd::prelude::*;

verus! {

/// What a directory entry is.
#[derive(Debug, Clone, Copy, PartialEq, Eq)]
pub enum EntryKind {
    /// A directory, to be descended into.
    Directory,
    /// A regular file.
    File,
    /// Anything else: passed over.
    Other,
}

/// One entry of a directory that was read.
#[derive(Debug, Clone, PartialEq, Eq)]
pub struct DirectoryEntry {
    pub path: String,
    pub kind: EntryKind,
}

/// A `DirectoryEntry` as plain values.
pub struct EntryView {
    pub path: Seq<char>,
    pub kind: EntryKind,
}

impl View for DirectoryEntry {
    type V = EntryView;

    open spec fn view(&self) -> EntryView {
        EntryView { path: self.path@, kind: self.kind }
    }
}

/// The views of a list of directory entries.
pub open spec fn entry_views(entries: Seq<DirectoryEntry>) -> Seq<EntryView> {
    Seq::new(entries.len(), |i: int| entries[i]@)
}

/// The paths of those entries of `entries` that are of `kind`, in order.
pub open spec fn paths_of_kind(entries: Seq<EntryView>, kind: EntryKind) -> Seq<Seq<char>>
    decreases entries.len(),
{
    if entries.len() == 0 {
        Seq::empty()
    } else if entries.last().kind == kind {
        paths_of_kind(entries.drop_last(), kind).push(entries.last().path)
    } else {
        paths_of_kind(entries.drop_last(), kind)
    }
}

/// The state of a traversal: the directories still to be read and the
/// regular files found so far.
pub struct Traverser {
    pending: Vec<String>,
    files: Vec<String>,
}

impl Traverser {
    /// The directories still to be read; the last one is read next.
    pub closed spec fn pending(&self) -> Seq<Seq<char>> {
        texts(self.pending@)
    }

    /// The regular files found so far, in the order in which they were
    /// found.
    pub closed spec fn found(&self) -> Seq<Seq<char>> {
        texts(self.files@)
    }

    /// A traversal that has the directory `root` to read and has found
    /// nothing yet.
    pub fn new(root: String) -> (traverser: Traverser)
        ensures
            traverser.pending() == seq![root@],
            traverser.found() == Seq::<Seq<char>>::empty(),
    {
        let mut pending: Vec<String> = Vec::new();
        pending.push(root);
        Traverser { pending, files: Vec::new() }
    }

    /// The directory to read next, which is taken off the work list, or
    /// `None` when the traversal is complete.
    pub fn next_directory(&mut self) -> (next: Option<String>)
        ensures
            final(self).found() == old(self).found(),
            match next {
                Some(directory) => {
                    &&& old(self).pending().len() > 0
                    &&& directory@ == old(self).pending().last()
                    &&& final(self).pending() == old(self).pending().drop_last()
                },
                None => {
                    &&& old(self).pending().len() == 0
                    &&& final(self).pending() == old(self).pending()
                },
            },
    {
        self.pending.pop()
    }

    /// Takes in the entries of a directory that was read. Regular files are
    /// added to the files found, directories to the work list, both in the
    /// order of `entries`; any other entry is passed over. For a directory
    /// that could not be read there is nothing to take in.
    pub fn record_entries(&mut self, entries: Vec<DirectoryEntry>)
        ensures
            final(self).found() == old(self).found() + paths_of_kind(
                entry_views(entries@),
                EntryKind::File,
            ),
            final(self).pending() == old(self).pending() + paths_of_kind(
                entry_views(entries@),
                EntryKind::Directory,
            ),
    {
        let ghost all = entry_views(entries@);
        proof {
            assert(self.found() =~= old(self).found() + paths_of_kind(
                all.take(0),
                EntryKind::File,
            ));
            assert(self.pending() =~= old(self).pending() + paths_of_kind(
                all.take(0),
                EntryKind::Directory,
            ));
        }
        for entry in walk: entries
            invariant
                walk.seq() == entries@,
                all == entry_views(entries@),
                self.found() == old(self).found() + paths_of_kind(
                    all.take(walk.index()),
                    EntryKind::File,
                ),
                self.pending() == old(self).pending() + paths_of_kind(
                    all.take(walk.index()),
                    EntryKind::Directory,
                ),
        {
            let ghost at = walk.index();
            let ghost found = self.found();
            let ghost pending = self.pending();
            proof {
                assert(all.take(at + 1).drop_last() =~= all.take(at));
            }
            let DirectoryEntry { path, kind } = entry;
            match kind {
                EntryKind::Directory => {
                    self.pending.push(path);
                    assert(self.pending() =~= pending.push(path@));
                },
                EntryKind::File => {
                    self.files.push(path);
                    assert(self.found() =~= found.push(path@));
                },
                EntryKind::Other => {},
            }
            assert(self.found() =~= old(self).found() + paths_of_kind(
                all.take(at + 1),
                EntryKind::File,
            ));
            assert(self.pending() =~= old(self).pending() + paths_of_kind(
                all.take(at + 1),
                EntryKind::Directory,
            ));
        }
        assert(all.take(entries@.len() as int) =~= all);
    }

    /// Whether every directory has been read.
    pub fn is_complete(&self) -> (complete: bool)
        ensures
            complete == (self.pending().len() == 0),
    {
        self.pending.len() == 0
    }

    /// The regular files found.
    pub fn into_files(self) -> (files: Vec<String>)
        ensures
            texts(files@) == self.found(),
    {
        self.files
    }
}

/// What reading the directory `dir` gives in the directory tree `tree`: its
/// entries, or nothing where it cannot be read.
pub open spec fn entries_of(tree: Map<Seq<char>, Seq<EntryView>>, dir: Seq<char>) -> Seq<
    EntryView,
> {
    if tree.contains_key(dir) {
        tree[dir]
    } else {
        Seq::empty()
    }
}

/// The work list and the files found of a traversal.
pub struct Progress {
    pub pending: Seq<Seq<char>>,
    pub found: Seq<Seq<char>>,
}

impl View for Traverser {
    type V = Progress;

    open spec fn view(&self) -> Progress {
        Progress { pending: self.pending(), found: self.found() }
    }
}

/// The traversal before anything was read.
pub open spec fn at_start(root: Seq<char>) -> Progress {
    Progress { pending: seq![root], found: Seq::empty() }
}

/// The traversal after its next directory was read in `tree`: what
/// `next_directory` and then `record_entries` with the entries of that
/// directory make of it. A complete traversal stays as it is.
pub open spec fn after_read(tree: Map<Seq<char>, Seq<EntryView>>, progress: Progress) -> Progress {
    if progress.pending.len() == 0 {
        progress
    } else {
        let entries = entries_of(tree, progress.pending.last());
        Progress {
            pending: progress.pending.drop_last() + paths_of_kind(entries, EntryKind::Directory),
            found: progress.found + paths_of_kind(entries, EntryKind::File),
        }
    }
}

/// The traversal of `tree` from `root` after `reads` directories were read.
pub open spec fn after_reads(tree: Map<Seq<char>, Seq<EntryView>>, root: Seq<char>, reads: nat)
    -> Progress
    decreases reads,
{
    if reads == 0 {
        at_start(root)
    } else {
        after_read(tree, after_reads(tree, root, (reads - 1) as nat))
    }
}

/// The directories read in the first `reads` reads.
pub open spec fn directories_read(
    tree: Map<Seq<char>, Seq<EntryView>>,
    root: Seq<char>,
    reads: nat,
) -> Set<Seq<char>>
    decreases reads,
{
    if reads == 0 {
        Set::empty()
    } else {
        let before = after_reads(tree, root, (reads - 1) as nat);
        let read = directories_read(tree, root, (reads - 1) as nat);
        if before.pending.len() == 0 {
            read
        } else {
            read.insert(before.pending.last())
        }
    }
}

/// A directory tree held in memory: the entries of every directory that can
/// be read.
pub struct DirectoryTree {
    directories: StringHashMap<Vec<DirectoryEntry>>,
}

impl View for DirectoryTree {
    type V = Map<Seq<char>, Seq<EntryView>>;

    closed spec fn view(&self) -> Map<Seq<char>, Seq<EntryView>> {
        Map::new(
            |dir: Seq<char>| self.directories@.contains_key(dir),
            |dir: Seq<char>| entry_views(self.directories@[dir]@),
        )
    }
}

impl DirectoryTree {
    /// A tree without a directory that can be read.
    pub fn new() -> (tree: DirectoryTree)
        ensures
            tree@ == Map::<Seq<char>, Seq<EntryView>>::empty(),
    {
        let tree = DirectoryTree { directories: StringHashMap::new() };
        assert(tree@ =~= Map::<Seq<char>, Seq<EntryView>>::empty());
        tree
    }

    /// Makes `entries` the entries of the directory `dir`.
    pub fn insert(&mut self, dir: String, entries: Vec<DirectoryEntry>)
        ensures
            final(self)@ == old(self)@.insert(dir@, entry_views(entries@)),
    {
        self.directories.insert(dir, entries);
        assert(self@ =~= old(self)@.insert(dir@, entry_views(entries@)));
    }

    /// A copy of the entries of `dir`, where it can be read.
    pub fn read(&self, dir: &str) -> (entries: Option<Vec<DirectoryEntry>>)
        ensures
            match entries {
                Some(list) => self@.contains_key(dir@) && entry_views(list@) == self@[dir@],
                None => !self@.contains_key(dir@),
            },
    {
        match self.directories.get(dir) {
            Some(list) => Some(copy_entries(list)),
            None => None,
        }
    }
}

/// A copy of `entries`.
fn copy_entries(entries: &Vec<DirectoryEntry>) -> (copy: Vec<DirectoryEntry>)
    ensures
        entry_views(copy@) == entry_views(entries@),
{
    let mut copy: Vec<DirectoryEntry> = Vec::new();
    let mut i: usize = 0;
    while i < entries.len()
        invariant
            i <= entries.len(),
            entry_views(copy@) == entry_views(entries@).take(i as int),
        decreases entries.len() - i,
    {
        let entry = &entries[i];
        let ghost done = entry_views(copy@);
        let twin = DirectoryEntry { path: entry.path.clone(), kind: entry.kind };
        assert(twin@ == entry@);
        copy.push(twin);
        i += 1;
        assert(entry_views(copy@) =~= done.push(entry@));
        assert(entry_views(entries@).take(i as int) =~= done.push(entry@));
    }
    assert(entry_views(entries@).take(i as int) =~= entry_views(entries@));
    copy
}

/// Collects the regular files of a directory tree held in memory, from
/// `root` down, reading `max_reads` directories at most. The result is
/// `None` where the traversal is not complete by then.
pub fn collect_files_recursively(tree: &DirectoryTree, root: &str, max_reads: usize) -> (files:
    Option<Vec<String>>)
    ensures
        match files {
            Some(found) => exists|reads: nat|
                reads <= max_reads && (#[trigger] after_reads(tree@, root@, reads)).pending.len()
                    == 0 && texts(found@) == after_reads(tree@, root@, reads).found,
            None => after_reads(tree@, root@, max_reads as nat).pending.len() > 0,
        },
{
    let mut traverser = Traverser::new(root.to_owned());
    let mut reads: usize = 0;
    loop
        invariant
            reads <= max_reads,
            traverser@ == after_reads(tree@, root@, reads as nat),
        decreases max_reads - reads,
    {
        let ghost before = traverser@;
        match traverser.next_directory() {
            None => {
                return Some(traverser.into_files());
            },
            Some(directory) => {
                if reads == max_reads {
                    return None;
                }
                match tree.read(directory.as_str()) {
                    Some(entries) => {
                        traverser.record_entries(entries);
                    },
                    None => {
                        assert(traverser.found() =~= before.found + paths_of_kind(
                            Seq::<EntryView>::empty(),
                            EntryKind::File,
                        ));
                        assert(traverser.pending() =~= before.pending.drop_last() + paths_of_kind(
                            Seq::<EntryView>::empty(),
                            EntryKind::Directory,
                        ));
                    },
                }
                reads += 1;
            },
        }
    }
}

/// Whether `descent` leads from `root` down the tree: it starts with
/// `root`, and each further directory is a directory entry of the one
/// before it.
pub open spec fn is_descent(
    tree: Map<Seq<char>, Seq<EntryView>>,
    root: Seq<char>,
    descent: Seq<Seq<char>>,
) -> bool {
    &&& descent.len() > 0
    &&& descent[0] == root
    &&& forall|i: int|
        0 <= i < descent.len() - 1 ==> paths_of_kind(
            entries_of(tree, #[trigger] descent[i]),
            EntryKind::Directory,
        ).contains(descent[i + 1])
}

/// Whether `dir` is `root` or a directory below it.
pub open spec fn is_directory_below(
    tree: Map<Seq<char>, Seq<EntryView>>,
    root: Seq<char>,
    dir: Seq<char>,
) -> bool {
    exists|descent: Seq<Seq<char>>| #[trigger]
        is_descent(tree, root, descent) && descent.last() == dir
}

/// Whether `file` is a regular file of `root` or of a directory below it.
pub open spec fn is_file_below(
    tree: Map<Seq<char>, Seq<EntryView>>,
    root: Seq<char>,
    file: Seq<char>,
) -> bool {
    exists|dir: Seq<char>|
        #![trigger is_directory_below(tree, root, dir)]
        is_directory_below(tree, root, dir) && paths_of_kind(
            entries_of(tree, dir),
            EntryKind::File,
        ).contains(file)
}

/// What holds of a traversal at every moment: the root was read or waits to
/// be read; so does every directory entry of a directory that was read; and
/// every file entry of a directory that was read has been found.
pub open spec fn keeps_track(
    tree: Map<Seq<char>, Seq<EntryView>>,
    root: Seq<char>,
    read: Set<Seq<char>>,
    progress: Progress,
) -> bool {
    &&& read.contains(root) || progress.pending.contains(root)
    &&& forall|dir: Seq<char>, child: Seq<char>|
        #![trigger read.contains(dir), progress.pending.contains(child)]
        read.contains(dir) && paths_of_kind(entries_of(tree, dir), EntryKind::Directory).contains(
            child,
        ) ==> read.contains(child) || progress.pending.contains(child)
    &&& forall|dir: Seq<char>, file: Seq<char>|
        #![trigger read.contains(dir), progress.found.contains(file)]
        read.contains(dir) && paths_of_kind(entries_of(tree, dir), EntryKind::File).contains(file)
            ==> progress.found.contains(file)
}

/// A traversal keeps track of what it has read, however far it has got.
pub proof fn lemma_traversal_keeps_track(
    tree: Map<Seq<char>, Seq<EntryView>>,
    root: Seq<char>,
    reads: nat,
)
    ensures
        keeps_track(
            tree,
            root,
            directories_read(tree, root, reads),
            after_reads(tree, root, reads),
        ),
    decreases reads,
{
    if reads == 0 {
        assert(at_start(root).pending[0] == root);
    } else {
        let earlier = (reads - 1) as nat;
        lemma_traversal_keeps_track(tree, root, earlier);
        let before = after_reads(tree, root, earlier);
        let after = after_reads(tree, root, reads);
        let read = directories_read(tree, root, earlier);
        let now = directories_read(tree, root, reads);
        if before.pending.len() > 0 {
            let dir = before.pending.last();
            let kept = before.pending.drop_last();
            let children = paths_of_kind(entries_of(tree, dir), EntryKind::Directory);
            let files = paths_of_kind(entries_of(tree, dir), EntryKind::File);
            assert forall|path: Seq<char>| before.pending.contains(path) implies path == dir
                || after.pending.contains(path) by {
                let i = choose|i: int| 0 <= i < before.pending.len() && before.pending[i] == path;
                if i < kept.len() {
                    assert(after.pending[i] == path);
                }
            }
            assert forall|path: Seq<char>| children.contains(path) implies after.pending.contains(
                path,
            ) by {
                let i = choose|i: int| 0 <= i < children.len() && children[i] == path;
                assert(after.pending[kept.len() + i] == path);
            }
            assert forall|path: Seq<char>| before.found.contains(path) implies after.found.contains(
                path,
            ) by {
                let i = choose|i: int| 0 <= i < before.found.len() && before.found[i] == path;
                assert(after.found[i] == path);
            }
            assert forall|path: Seq<char>| files.contains(path) implies after.found.contains(
                path,
            ) by {
                let i = choose|i: int| 0 <= i < files.len() && files[i] == path;
                assert(after.found[before.found.len() + i] == path);
            }
            assert(keeps_track(tree, root, now, after));
        }
    }
}

/// A complete traversal has read every directory below the root.
pub proof fn lemma_complete_traversal_read_all(
    tree: Map<Seq<char>, Seq<EntryView>>,
    root: Seq<char>,
    reads: nat,
    descent: Seq<Seq<char>>,
)
    requires
        after_reads(tree, root, reads).pending.len() == 0,
        is_descent(tree, root, descent),
    ensures
        directories_read(tree, root, reads).contains(descent.last()),
    decreases descent.len(),
{
    lemma_traversal_keeps_track(tree, root, reads);
    if descent.len() > 1 {
        let higher = descent.drop_last();
        assert forall|i: int| 0 <= i < higher.len() - 1 implies paths_of_kind(
            entries_of(tree, #[trigger] higher[i]),
            EntryKind::Directory,
        ).contains(higher[i + 1]) by {
            assert(higher[i] == descent[i]);
        }
        lemma_complete_traversal_read_all(tree, root, reads, higher);
        let parent = descent[descent.len() - 2];
        let child = descent.last();
        assert(higher.last() == parent);
        assert(paths_of_kind(entries_of(tree, parent), EntryKind::Directory).contains(child));
        assert(!after_reads(tree, root, reads).pending.contains(child));
    }
}

/// A complete traversal has found every regular file of the root and of the
/// directories below it, as far as they can be read.
pub proof fn lemma_complete_traversal_finds_all(
    tree: Map<Seq<char>, Seq<EntryView>>,
    root: Seq<char>,
    reads: nat,
    file: Seq<char>,
)
    requires
        after_reads(tree, root, reads).pending.len() == 0,
        is_file_below(tree, root, file),
    ensures
        after_reads(tree, root, reads).found.contains(file),
{
    let dir = choose|dir: Seq<char>|
        #![trigger is_directory_below(tree, root, dir)]
        is_directory_below(tree, root, dir) && paths_of_kind(
            entries_of(tree, dir),
            EntryKind::File,
        ).contains(file);
    let descent = choose|descent: Seq<Seq<char>>| #[trigger]
        is_descent(tree, root, descent) && descent.last() == dir;
    lemma_complete_traversal_read_all(tree, root, reads, descent);
    lemma_traversal_keeps_track(tree, root, reads);
}

/// A traversal stays below its root: every directory on the work list is the
/// root or a directory below it, and every file found is a regular file of
/// one of these.
pub proof fn lemma_traversal_stays_below_root(
    tree: Map<Seq<char>, Seq<EntryView>>,
    root: Seq<char>,
    reads: nat,
)
    ensures
        forall|dir: Seq<char>|
            after_reads(tree, root, reads).pending.contains(dir) ==> is_directory_below(
                tree,
                root,
                dir,
            ),
        forall|file: Seq<char>|
            after_reads(tree, root, reads).found.contains(file) ==> is_file_below(tree, root, file),
    decreases reads,
{
    let after = after_reads(tree, root, reads);
    if reads == 0 {
        assert(is_descent(tree, root, seq![root]));
        assert(seq![root].last() == root);
    } else {
        let before = after_reads(tree, root, (reads - 1) as nat);
        lemma_traversal_stays_below_root(tree, root, (reads - 1) as nat);
        if before.pending.len() > 0 {
            let dir = before.pending.last();
            let kept = before.pending.drop_last();
            let children = paths_of_kind(entries_of(tree, dir), EntryKind::Directory);
            let files = paths_of_kind(entries_of(tree, dir), EntryKind::File);
            assert(before.pending[before.pending.len() - 1] == dir);
            assert(is_directory_below(tree, root, dir));
            let descent = choose|descent: Seq<Seq<char>>| #[trigger]
                is_descent(tree, root, descent) && descent.last() == dir;
            assert forall|path: Seq<char>| after.pending.contains(path) implies is_directory_below(
                tree,
                root,
                path,
            ) by {
                let i = choose|i: int| 0 <= i < after.pending.len() && after.pending[i] == path;
                if i < kept.len() {
                    assert(before.pending[i] == path);
                } else {
                    assert(children[i - kept.len()] == path);
                    let longer = descent.push(path);
                    assert forall|k: int| 0 <= k < longer.len() - 1 implies paths_of_kind(
                        entries_of(tree, #[trigger] longer[k]),
                        EntryKind::Directory,
                    ).contains(longer[k + 1]) by {
                        if k < descent.len() - 1 {
                            assert(longer[k] == descent[k]);
                            assert(longer[k + 1] == descent[k + 1]);
                        } else {
                            assert(longer[k] == dir);
                            assert(longer[k + 1] == path);
                            assert(children.contains(path));
                        }
                    }
                    assert(is_descent(tree, root, longer));
                    assert(longer.last() == path);
                }
            }
            assert forall|path: Seq<char>| after.found.contains(path) implies is_file_below(
                tree,
                root,
                path,
            ) by {
                let i = choose|i: int| 0 <= i < after.found.len() && after.found[i] == path;
                if i < before.found.len() {
                    assert(before.found[i] == path);
                } else {
                    assert(files[i - before.found.len()] == path);
                    assert(is_directory_below(tree, root, dir));
                }
            }
        }
    }
}

} // verus!
