//! Discovery: a walk through the source tree that keeps the files whose
//! names match a glob pattern.
//!
//! The walk does not read the disk. It says which directory is to be listed
//! next, is handed what the listing held, and decides from that what is kept
//! and where the walk goes on.

use vstd::prelude::*;
use crate::paths::{file_name_of, path_file_name, text_of};
use crate::yee_file::{classified, models, FileModel, YeeFile};

verus! {

/// A compiled glob pattern, `glob::Pattern`, carried through as it is.
#[verifier::external_type_specification]
#[verifier::external_body]
pub struct ExPattern(glob::Pattern);

/// Whether `glob::Pattern::new` accepts the pattern `pattern`.
pub uninterp spec fn glob_compiles(pattern: Seq<char>) -> bool;

/// What `glob::Pattern::as_str` returns for a compiled pattern: the text it
/// was made of.
pub uninterp spec fn pattern_text(compiled: glob::Pattern) -> Seq<char>;

/// What `glob::Pattern::matches` returns for the text `name`, on the pattern
/// that `glob::Pattern::new` makes of `pattern`.
pub uninterp spec fn glob_matches(pattern: Seq<char>, name: Seq<char>) -> bool;

/// Calls `glob::Pattern::new` on `pattern`, with nothing in place of the
/// error. The contract claims that there is a result exactly if the answer
/// named [`glob_compiles`] says so, and that the result keeps the text it was
/// made of.
#[verifier::external_body]
fn compile(pattern: &str) -> (compiled: Option<glob::Pattern>)
    ensures
        compiled is Some <==> glob_compiles(pattern@),
        compiled is Some ==> pattern_text(compiled->0) == pattern@,
{
    glob::Pattern::new(pattern).ok()
}

/// Calls `glob::Pattern::matches` on `compiled` with `name`. The contract
/// claims only that the answer is the one named [`glob_matches`], for the
/// text the pattern was made of.
#[verifier::external_body]
fn pattern_matches(compiled: &glob::Pattern, name: &str) -> (hit: bool)
    ensures
        hit == glob_matches(pattern_text(*compiled), name@),
{
    compiled.matches(name)
}

/// What kind of thing a directory entry is.
#[derive(Copy, Clone, Debug, PartialEq, Eq, Structural)]
pub enum EntryKind {
    /// A directory: the walk goes into it.
    Directory,
    /// A file: it is kept if its name matches.
    File,
    /// Anything else: it is passed over.
    Other,
}

/// One entry of a directory listing.
#[derive(Debug)]
pub struct Entry {
    /// The path of the entry.
    pub path: String,
    /// What the entry is.
    pub kind: EntryKind,
}

/// What the contracts say of an [`Entry`].
pub struct EntryModel {
    pub path: Seq<char>,
    pub kind: EntryKind,
}

impl View for Entry {
    type V = EntryModel;

    open spec fn view(&self) -> EntryModel {
        EntryModel { path: self.path@, kind: self.kind }
    }
}

/// The views of a listing.
pub open spec fn listing(entries: Seq<Entry>) -> Seq<EntryModel> {
    entries.map_values(|entry: Entry| entry@)
}

/// The record that the file at `path` is kept as: its name, with the
/// extension, has to match the pattern, and the path has to give a record.
pub open spec fn selected(root: Seq<char>, pattern: Seq<char>, path: Seq<char>) -> Option<
    FileModel,
> {
    match path_file_name(path) {
        Some(name) => if glob_matches(pattern, name) {
            classified(root, path)
        } else {
            None
        },
        None => None,
    }
}

/// The record that `entry` is kept as, if it is kept.
pub open spec fn kept(root: Seq<char>, pattern: Seq<char>, entry: EntryModel) -> Option<
    FileModel,
> {
    if entry.kind == EntryKind::File {
        selected(root, pattern, entry.path)
    } else {
        None
    }
}

/// The records of the first `count` of `entries` that are kept, in their
/// order.
pub open spec fn selection(
    root: Seq<char>,
    pattern: Seq<char>,
    entries: Seq<EntryModel>,
    count: nat,
) -> Seq<FileModel>
    decreases count,
{
    if count == 0 {
        Seq::empty()
    } else {
        match kept(root, pattern, entries[count - 1]) {
            Some(file) => selection(root, pattern, entries, (count - 1) as nat).push(file),
            None => selection(root, pattern, entries, (count - 1) as nat),
        }
    }
}

/// The directories among the first `count` of `entries`, in their order.
pub open spec fn subdirectories(entries: Seq<EntryModel>, count: nat) -> Seq<Seq<char>>
    decreases count,
{
    if count == 0 {
        Seq::empty()
    } else if entries[count - 1].kind == EntryKind::Directory {
        subdirectories(entries, (count - 1) as nat).push(entries[count - 1].path)
    } else {
        subdirectories(entries, (count - 1) as nat)
    }
}

/// Glob filtering: a record is among those kept from a listing exactly if it
/// is the record of one of its files whose name matches the pattern.
pub proof fn lemma_kept_iff_matching(
    root: Seq<char>,
    pattern: Seq<char>,
    entries: Seq<EntryModel>,
    count: nat,
    file: FileModel,
)
    requires
        count <= entries.len(),
    ensures
        selection(root, pattern, entries, count).contains(file) <==> exists|i: int|
            0 <= i < count && #[trigger] kept(root, pattern, entries[i]) == Some(file),
    decreases count,
{
    if count > 0 {
        let before = (count - 1) as nat;
        lemma_kept_iff_matching(root, pattern, entries, before, file);
        let earlier = selection(root, pattern, entries, before);
        let all = selection(root, pattern, entries, count);
        if all.contains(file) {
            let k = choose|k: int| 0 <= k < all.len() && all[k] == file;
            if k < earlier.len() {
                assert(earlier[k] == file);
                assert(earlier.contains(file));
                let i = choose|i: int|
                    0 <= i < before && #[trigger] kept(root, pattern, entries[i]) == Some(file);
                assert(0 <= i < count && kept(root, pattern, entries[i]) == Some(file));
            } else {
                assert(kept(root, pattern, entries[count - 1]) == Some(file));
            }
        }
        if exists|i: int| 0 <= i < count && #[trigger] kept(root, pattern, entries[i]) == Some(file) {
            let i = choose|i: int|
                0 <= i < count && #[trigger] kept(root, pattern, entries[i]) == Some(file);
            if i < before {
                assert(earlier.contains(file));
                let k = choose|k: int| 0 <= k < earlier.len() && earlier[k] == file;
                assert(all[k] == file);
            } else {
                assert(all[all.len() - 1] == file);
            }
        }
    }
}

/// A file whose name does not match the pattern is not kept, whatever else
/// holds of it; one whose name matches is kept exactly if its path gives a
/// record.
pub proof fn lemma_only_matching_names(root: Seq<char>, pattern: Seq<char>, entry: EntryModel)
    ensures
        kept(root, pattern, entry) is Some ==> entry.kind == EntryKind::File && path_file_name(
            entry.path,
        ) is Some && glob_matches(pattern, path_file_name(entry.path)->0),
        entry.kind == EntryKind::File && path_file_name(entry.path) is Some && glob_matches(
            pattern,
            path_file_name(entry.path)->0,
        ) ==> kept(root, pattern, entry) == classified(root, entry.path),
{
}

/// What the contracts say of a [`Walk`].
pub struct WalkModel {
    /// The root of the scan.
    pub root: Seq<char>,
    /// The pattern that names have to match.
    pub pattern: Seq<char>,
    /// The directories that are still to be listed; the last one is next.
    pub pending: Seq<Seq<char>>,
    /// The records kept so far.
    pub found: Seq<FileModel>,
}

/// The walk once the next directory was taken from it, if there was one.
pub open spec fn popped(walk: WalkModel) -> WalkModel {
    if walk.pending.len() > 0 {
        WalkModel { pending: walk.pending.drop_last(), ..walk }
    } else {
        walk
    }
}

/// The walk once the listing `entries` was taken in.
pub open spec fn visited(walk: WalkModel, entries: Seq<EntryModel>) -> WalkModel {
    WalkModel {
        pending: walk.pending + subdirectories(entries, entries.len()),
        found: walk.found + selection(walk.root, walk.pattern, entries, entries.len()),
        ..walk
    }
}

/// The walk after `count` rounds: in each round the next directory is taken
/// and the listing that was read for it, the next of `listings`, is taken in.
pub open spec fn walked(walk: WalkModel, listings: Seq<Seq<EntryModel>>, count: nat) -> WalkModel
    decreases count,
{
    if count == 0 {
        walk
    } else {
        visited(popped(walked(walk, listings, (count - 1) as nat)), listings[count - 1])
    }
}

/// Glob filtering over a whole walk: whatever the listings that are read, a
/// record is among those found exactly if it was there before, or it is the
/// record of a file in one of the listings whose name matches the pattern.
/// Root and pattern stay what they were.
pub proof fn lemma_found_iff_listed_and_matching(
    walk: WalkModel,
    listings: Seq<Seq<EntryModel>>,
    count: nat,
    file: FileModel,
)
    requires
        count <= listings.len(),
    ensures
        walked(walk, listings, count).root == walk.root,
        walked(walk, listings, count).pattern == walk.pattern,
        walked(walk, listings, count).found.contains(file) <==> walk.found.contains(file)
            || exists|round: int, i: int|
            0 <= round < count && 0 <= i < listings[round].len() && #[trigger] kept(
                walk.root,
                walk.pattern,
                listings[round][i],
            ) == Some(file),
    decreases count,
{
    if count > 0 {
        let before = walked(walk, listings, (count - 1) as nat);
        let entries = listings[count - 1];
        let added = selection(walk.root, walk.pattern, entries, entries.len());
        let after = walked(walk, listings, count);
        lemma_found_iff_listed_and_matching(walk, listings, (count - 1) as nat, file);
        lemma_kept_iff_matching(walk.root, walk.pattern, entries, entries.len(), file);
        assert(after.found == before.found + added);
        if after.found.contains(file) {
            let k = choose|k: int| 0 <= k < after.found.len() && after.found[k] == file;
            if k < before.found.len() {
                assert(before.found[k] == file);
            } else {
                assert(added[k - before.found.len()] == file);
                let i = choose|i: int|
                    0 <= i < entries.len() && #[trigger] kept(walk.root, walk.pattern, entries[i])
                        == Some(file);
                assert(kept(walk.root, walk.pattern, listings[count - 1][i]) == Some(file));
            }
        }
        if walk.found.contains(file) || exists|round: int, i: int|
            0 <= round < count && 0 <= i < listings[round].len() && #[trigger] kept(
                walk.root,
                walk.pattern,
                listings[round][i],
            ) == Some(file) {
            if before.found.contains(file) {
                let k = choose|k: int| 0 <= k < before.found.len() && before.found[k] == file;
                assert(after.found[k] == file);
            } else {
                let (round, i) = choose|round: int, i: int|
                    0 <= round < count && 0 <= i < listings[round].len() && #[trigger] kept(
                        walk.root,
                        walk.pattern,
                        listings[round][i],
                    ) == Some(file);
                assert(round == count - 1);
                assert(kept(walk.root, walk.pattern, entries[i]) == Some(file));
                let k = choose|k: int| 0 <= k < added.len() && added[k] == file;
                assert(after.found[before.found.len() + k] == file);
            }
        }
    }
}

/// The first stage of a run.
pub struct Scanner {}

/// A walk through the tree below a root, under way.
pub struct Walk {
    root: String,
    pattern: glob::Pattern,
    pending: Vec<String>,
    found: Vec<YeeFile>,
}

impl View for Walk {
    type V = WalkModel;

    closed spec fn view(&self) -> WalkModel {
        WalkModel {
            root: self.root@,
            pattern: pattern_text(self.pattern),
            pending: self.pending@.map_values(|path: String| path@),
            found: models(self.found@),
        }
    }
}

impl Scanner {
    /// A scanner.
    pub fn new() -> Self {
        Scanner {  }
    }

    /// Starts a walk below `root_dir` for the files whose names match
    /// `pattern`. The root is the first directory to be listed. There is no
    /// walk where `pattern` is no glob pattern.
    pub fn scan(&self, root_dir: &str, pattern: &str) -> (walk: Option<Walk>)
        ensures
            walk is Some <==> glob_compiles(pattern@),
            walk matches Some(start) ==> start@ == (WalkModel {
                root: root_dir@,
                pattern: pattern@,
                pending: seq![root_dir@],
                found: Seq::empty(),
            }),
    {
        let compiled = match compile(pattern) {
            Some(compiled) => compiled,
            None => {
                return None;
            },
        };
        let mut pending: Vec<String> = Vec::new();
        pending.push(root_dir.to_owned());
        let walk = Walk {
            root: root_dir.to_owned(),
            pattern: compiled,
            pending: pending,
            found: Vec::new(),
        };
        assert(walk@.pending =~= seq![root_dir@]);
        assert(walk@.found =~= Seq::empty());
        Some(walk)
    }
}

impl Walk {
    /// Takes the directory that is to be listed next, the one that came in
    /// last. There is none once the walk is over.
    pub fn next_directory(&mut self) -> (directory: Option<String>)
        ensures
            text_of(directory) == if old(self)@.pending.len() > 0 {
                Some(old(self)@.pending.last())
            } else {
                None
            },
            final(self)@ == popped(old(self)@),
    {
        let directory = self.pending.pop();
        proof {
            if old(self)@.pending.len() > 0 {
                assert(self@.pending =~= old(self)@.pending.drop_last());
            }
        }
        directory
    }

    /// Takes in the listing of a directory. Each directory in it is to be
    /// listed later; each file whose name matches the pattern, and whose path
    /// gives a record, is kept. A directory that could not be listed has no
    /// entries.
    pub fn visit(&mut self, entries: &Vec<Entry>)
        ensures
            final(self)@ == visited(old(self)@, listing(entries@)),
    {
        let mut at: usize = 0;
        while at < entries.len()
            invariant
                at <= entries@.len(),
                self@ == (WalkModel {
                    pending: old(self)@.pending + subdirectories(listing(entries@), at as nat),
                    found: old(self)@.found + selection(
                        old(self)@.root,
                        old(self)@.pattern,
                        listing(entries@),
                        at as nat,
                    ),
                    ..old(self)@
                }),
            decreases entries@.len() - at,
        {
            let entry = &entries[at];
            let ghost before = self@;
            match entry.kind {
                EntryKind::Directory => {
                    self.pending.push(entry.path.clone());
                    assert(self@.pending =~= before.pending.push(entry@.path));
                },
                EntryKind::File => {
                    match file_name_of(entry.path.as_str()) {
                        Some(name) => {
                            if pattern_matches(&self.pattern, name.as_str()) {
                                match YeeFile::from_path(self.root.as_str(), entry.path.as_str()) {
                                    Some(file) => {
                                        let ghost record = file@;
                                        self.found.push(file);
                                        assert(self@.found =~= before.found.push(record));
                                    },
                                    None => {},
                                }
                            }
                        },
                        None => {},
                    }
                },
                EntryKind::Other => {},
            }
            at = at + 1;
        }
    }

    /// The records kept so far, in the order they were found.
    pub fn found(&self) -> (files: &Vec<YeeFile>)
        ensures
            models(files@) == self@.found,
    {
        &self.found
    }

    /// Ends the walk and hands out the records that were kept.
    pub fn into_files(self) -> (files: Vec<YeeFile>)
        ensures
            models(files@) == self@.found,
    {
        self.found
    }
}

} // verus!
