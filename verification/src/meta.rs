//! Fingerprinting and path derivation: every record gets its content hash,
//! its destination folder and its new name.

use vstd::prelude::*;
use vstd::string::*;
use crate::actions::{ActionModel, FsAction};
use crate::args::{ArgsModel, GroupStyle, RenameStyle, YeeArgs};
use crate::digest::digest_text;
use crate::paths::{join_of, path_join};
use crate::text::{
    hex_digits, joined, leading, leading_chars, lowercase_of, to_lowercase, zero_padded,
    zero_padded_decimal,
};
use crate::yee_file::{models, source_of, FileModel, YeeFile};

verus! {

/// What the contracts say of a [`Meta`]: the settings, the groups that were
/// given a number, in the order they were first seen, and how many files of
/// each group were given a number.
pub struct MetaModel {
    pub args: ArgsModel,
    pub groups: Seq<Seq<char>>,
    pub file_counts: Map<Seq<char>, nat>,
}

/// The number of the group `key`: its place in `groups`, counted from one, or
/// zero where the group has none yet.
pub open spec fn group_number(groups: Seq<Seq<char>>, key: Seq<char>) -> nat
    decreases groups.len(),
{
    if groups.len() == 0 {
        0
    } else if groups.last() == key {
        groups.len()
    } else {
        group_number(groups.drop_last(), key)
    }
}

/// The groups once `key` has its number: a group that has none goes to the
/// end.
pub open spec fn registered(groups: Seq<Seq<char>>, key: Seq<char>) -> Seq<Seq<char>> {
    if group_number(groups, key) > 0 {
        groups
    } else {
        groups.push(key)
    }
}

/// How many files of the group `key` were given a number.
pub open spec fn file_count(counts: Map<Seq<char>, nat>, key: Seq<char>) -> nat {
    if counts.dom().contains(key) {
        counts[key]
    } else {
        0
    }
}

/// The counts once one more file of the group `key` was given a number.
pub open spec fn counted(counts: Map<Seq<char>, nat>, key: Seq<char>) -> Map<Seq<char>, nat> {
    counts.insert(key, file_count(counts, key) + 1)
}

/// The folder of the group `key`, and the state once it is named: the key
/// itself, or `group_` and the group's number in four digits.
pub open spec fn folder_step(meta: MetaModel, key: Seq<char>) -> (MetaModel, Seq<char>) {
    match meta.args.group_style {
        GroupStyle::ShortHash => (meta, key),
        GroupStyle::Incremental => {
            let groups = registered(meta.groups, key);
            (
                MetaModel { groups: groups, ..meta },
                "group_"@ + zero_padded(group_number(groups, key), 4),
            )
        },
    }
}

/// The state once one more file of the group `key` was given a number.
pub open spec fn count_step(meta: MetaModel, key: Seq<char>) -> MetaModel {
    MetaModel { file_counts: counted(meta.file_counts, key), ..meta }
}

/// The next file number of the group `key`, in four digits.
pub open spec fn next_file_number(meta: MetaModel, key: Seq<char>) -> Seq<char> {
    zero_padded(file_count(meta.file_counts, key) + 1, 4)
}

/// The new name of `file`, and the state once it is named.
pub open spec fn name_step(meta: MetaModel, file: FileModel) -> (MetaModel, Seq<char>) {
    match meta.args.rename_style {
        RenameStyle::Keep => (meta, file.filename),
        RenameStyle::Lowercase => (meta, lowercase_of(file.filename)),
        RenameStyle::Incremental => (
            count_step(meta, file.group_id),
            next_file_number(meta, file.group_id),
        ),
        RenameStyle::ShortHash => match file.hash {
            Some(hash) => (meta, leading(hash, 8)),
            None => (meta, file.filename),
        },
        RenameStyle::Combined => match meta.args.group_style {
            GroupStyle::ShortHash => match file.hash {
                Some(hash) => (meta, leading(file.group_id, 6) + seq!['_'] + leading(hash, 8)),
                None => (
                    count_step(meta, file.group_id),
                    leading(file.group_id, 6) + seq!['_'] + next_file_number(meta, file.group_id),
                ),
            },
            GroupStyle::Incremental => (
                count_step(meta, file.group_id),
                zero_padded(group_number(meta.groups, file.group_id), 3) + seq!['_']
                    + next_file_number(meta, file.group_id),
            ),
        },
    }
}

/// `file` with its destination, and the state once it has one: the folder of
/// its group is named first, then the file.
pub open spec fn placed(meta: MetaModel, file: FileModel) -> (MetaModel, FileModel) {
    let (with_folder, folder) = folder_step(meta, file.group_id);
    let (with_name, name) = name_step(with_folder, file);
    (
        with_name,
        FileModel {
            filename: name,
            destination_full_path: path_join(meta.args.destination_dir, folder),
            destination_local_path: folder,
            ..file
        },
    )
}

/// The first `count` of `files` with their destinations, placed one after the
/// other, and the state after the last of them.
pub open spec fn placed_all(meta: MetaModel, files: Seq<FileModel>, count: nat) -> (
    MetaModel,
    Seq<FileModel>,
)
    decreases count,
{
    if count == 0 {
        (meta, Seq::empty())
    } else {
        let (before, done) = placed_all(meta, files, (count - 1) as nat);
        let (after, file) = placed(before, files[count - 1]);
        (after, done.push(file))
    }
}

/// The digest that was handed in for the file at `position`, if any.
pub open spec fn digest_at(digests: Seq<Option<u64>>, position: int) -> Option<u64> {
    if 0 <= position < digests.len() {
        digests[position]
    } else {
        None
    }
}

/// `file` with the hash that its digest gives. A file without a digest, one
/// that could not be read, keeps what it had.
pub open spec fn hashed(file: FileModel, digest: Option<u64>) -> FileModel {
    match digest {
        Some(value) => FileModel { hash: Some(hex_digits(value as nat, 16)), ..file },
        None => file,
    }
}

/// Every file with the hash that its digest gives.
pub open spec fn hashed_all(files: Seq<FileModel>, digests: Seq<Option<u64>>) -> Seq<FileModel> {
    Seq::new(files.len(), |i: int| hashed(files[i], digest_at(digests, i)))
}

/// The directories to make for `files`, one request per file and in their
/// order; none at all in a dry run.
pub open spec fn directories(dry: bool, files: Seq<FileModel>) -> Seq<ActionModel> {
    if dry {
        Seq::empty()
    } else {
        Seq::new(
            files.len(),
            |i: int| ActionModel::CreateDirAll { path: files[i].destination_full_path },
        )
    }
}


/// Numbering the files of a group: under the incremental rename style a file
/// gets the number that follows the last one handed out in its group, in
/// four digits; the first file of a group gets `0001`. The count of its group
/// goes up by one and no other count changes.
pub proof fn lemma_files_are_numbered_on(meta: MetaModel, file: FileModel)
    requires
        meta.args.rename_style == RenameStyle::Incremental,
    ensures
        name_step(meta, file).1 == zero_padded(file_count(meta.file_counts, file.group_id) + 1, 4),
        file_count(name_step(meta, file).0.file_counts, file.group_id) == file_count(
            meta.file_counts,
            file.group_id,
        ) + 1,
        forall|other: Seq<char>|
            other != file.group_id ==> file_count(name_step(meta, file).0.file_counts, other)
                == file_count(meta.file_counts, other),
        file_count(meta.file_counts, file.group_id) == 0 ==> name_step(meta, file).1 == seq![
            '0',
            '0',
            '0',
            '1',
        ],
{
}

/// Numbering the groups: under the incremental group style a group that is
/// seen for the first time gets the number that follows the number of groups
/// seen before it, and its folder is `group_` and that number in four
/// digits; a group seen before keeps its number and its folder. No other
/// group's number changes.
pub proof fn lemma_groups_are_numbered_in_order(meta: MetaModel, key: Seq<char>)
    requires
        meta.args.group_style == GroupStyle::Incremental,
    ensures
        group_number(meta.groups, key) == 0 ==> group_number(folder_step(meta, key).0.groups, key)
            == meta.groups.len() + 1,
        group_number(meta.groups, key) > 0 ==> folder_step(meta, key).0 == meta,
        folder_step(meta, key).1 == "group_"@ + zero_padded(
            group_number(folder_step(meta, key).0.groups, key),
            4,
        ),
        forall|other: Seq<char>|
            other != key ==> group_number(folder_step(meta, key).0.groups, other) == group_number(
                meta.groups,
                other,
            ),
        folder_step(folder_step(meta, key).0, key) == folder_step(meta, key),
{
    let after = folder_step(meta, key).0.groups;
    if group_number(meta.groups, key) == 0 {
        assert(after.drop_last() =~= meta.groups);
    }
}

/// A group's number is its place in the order of first sight: it lies between
/// one and the number of groups, and the group with that number is the group
/// itself.
pub proof fn lemma_group_number_is_a_place(groups: Seq<Seq<char>>, key: Seq<char>)
    ensures
        group_number(groups, key) <= groups.len(),
        group_number(groups, key) > 0 ==> groups[group_number(groups, key) - 1] == key,
        group_number(groups, key) == 0 <==> !groups.contains(key),
    decreases groups.len(),
{
    if groups.len() > 0 {
        lemma_group_number_is_a_place(groups.drop_last(), key);
        if groups.last() != key {
            if groups.contains(key) {
                let i = choose|i: int| 0 <= i < groups.len() && groups[i] == key;
                assert(groups.drop_last()[i] == key);
            }
            if groups.drop_last().contains(key) {
                let i = choose|i: int| 0 <= i < groups.drop_last().len() && groups.drop_last()[i] == key;
                assert(groups[i] == key);
            }
        } else {
            assert(groups[groups.len() - 1] == key);
        }
    }
}

/// Placing a file changes its name and its destination and nothing else:
/// where it came from, the name it was found under, its extension, its hash
/// and its group stay. So the file is still read from where it was found.
pub proof fn lemma_placing_keeps_the_source(meta: MetaModel, file: FileModel)
    ensures
        source_of(placed(meta, file).1) == source_of(file),
        placed(meta, file).1.source_filename == file.source_filename,
        placed(meta, file).1.source_full_path == file.source_full_path,
        placed(meta, file).1.source_local_path == file.source_local_path,
        placed(meta, file).1.extension == file.extension,
        placed(meta, file).1.hash == file.hash,
        placed(meta, file).1.group_id == file.group_id,
        placed(meta, file).0.args == meta.args,
{
}

/// However a batch is hashed and renamed, every file of it is still read from
/// where it was found.
pub proof fn lemma_processing_keeps_the_sources(
    meta: MetaModel,
    files: Seq<FileModel>,
    digests: Seq<Option<u64>>,
    count: nat,
)
    requires
        count <= files.len(),
    ensures
        placed_all(meta, hashed_all(files, digests), count).1.len() == count,
        forall|i: int|
            0 <= i < count ==> source_of(
                #[trigger] placed_all(meta, hashed_all(files, digests), count).1[i],
            ) == source_of(files[i]),
    decreases count,
{
    if count > 0 {
        lemma_processing_keeps_the_sources(meta, files, digests, (count - 1) as nat);
    }
}

/// Naming by short hash: a file with a digest gets the sixteen digits of the
/// digest as its hash and the first eight of them as its name. So files with
/// the same digest get the same hash and the same name.
pub proof fn lemma_short_hash_names(meta: MetaModel, file: FileModel, digest: u64)
    requires
        meta.args.rename_style == RenameStyle::ShortHash,
    ensures
        hashed(file, Some(digest)).hash == Some(hex_digits(digest as nat, 16)),
        name_step(meta, hashed(file, Some(digest))).1 == hex_digits(digest as nat, 16).take(8),
        name_step(meta, hashed(file, Some(digest))).1.len() == 8,
        name_step(meta, hashed(file, Some(digest))).0 == meta,
{
    crate::text::lemma_hex_digits_form(digest as nat, 16);
}

/// No two groups share a number.
pub proof fn lemma_group_numbers_differ(groups: Seq<Seq<char>>, first: Seq<char>, second: Seq<char>)
    requires
        group_number(groups, first) > 0,
        group_number(groups, first) == group_number(groups, second),
    ensures
        first == second,
{
    lemma_group_number_is_a_place(groups, first);
    lemma_group_number_is_a_place(groups, second);
}

/// A dry run computes what a real run computes: whether the run is dry has
/// no part in the destination of a file, nor in the numbers handed out.
pub proof fn lemma_dry_run_places_alike(meta: MetaModel, files: Seq<FileModel>, count: nat)
    requires
        count <= files.len(),
    ensures
        placed_all(MetaModel { args: ArgsModel { dry: true, ..meta.args }, ..meta }, files, count).1
            == placed_all(
            MetaModel { args: ArgsModel { dry: false, ..meta.args }, ..meta },
            files,
            count,
        ).1,
        placed_all(
            MetaModel { args: ArgsModel { dry: true, ..meta.args }, ..meta },
            files,
            count,
        ).0.groups == placed_all(
            MetaModel { args: ArgsModel { dry: false, ..meta.args }, ..meta },
            files,
            count,
        ).0.groups,
        placed_all(
            MetaModel { args: ArgsModel { dry: true, ..meta.args }, ..meta },
            files,
            count,
        ).0.file_counts == placed_all(
            MetaModel { args: ArgsModel { dry: false, ..meta.args }, ..meta },
            files,
            count,
        ).0.file_counts,
        placed_all(
            MetaModel { args: ArgsModel { dry: true, ..meta.args }, ..meta },
            files,
            count,
        ).0.args == (ArgsModel { dry: true, ..meta.args }),
        placed_all(
            MetaModel { args: ArgsModel { dry: false, ..meta.args }, ..meta },
            files,
            count,
        ).0.args == (ArgsModel { dry: false, ..meta.args }),
    decreases count,
{
    if count > 0 {
        lemma_dry_run_places_alike(meta, files, (count - 1) as nat);
    }
}

/// A dry run asks for no directory.
pub proof fn lemma_dry_run_makes_nothing(files: Seq<FileModel>)
    ensures
        directories(true, files).len() == 0,
        directories(false, files).len() == files.len(),
{
}

/// The count that the last entry for `key` holds, or zero where none does.
spec fn count_in(pairs: Seq<(String, usize)>, key: Seq<char>) -> nat
    decreases pairs.len(),
{
    if pairs.len() == 0 {
        0
    } else if pairs.last().0@ == key {
        pairs.last().1 as nat
    } else {
        count_in(pairs.drop_last(), key)
    }
}

spec fn counts_of(pairs: Seq<(String, usize)>) -> Map<Seq<char>, nat> {
    Map::new(|key: Seq<char>| count_in(pairs, key) > 0, |key: Seq<char>| count_in(pairs, key))
}

spec fn distinct_keys(pairs: Seq<(String, usize)>) -> bool {
    forall|i: int, j: int| 0 <= i < j < pairs.len() ==> (#[trigger] pairs[i]).0@ != (#[trigger] pairs[j]).0@
}

spec fn group_keys(groups: Seq<String>) -> Seq<Seq<char>> {
    groups.map_values(|group: String| group@)
}

proof fn lemma_count_absent(pairs: Seq<(String, usize)>, key: Seq<char>)
    requires
        forall|i: int| 0 <= i < pairs.len() ==> (#[trigger] pairs[i]).0@ != key,
    ensures
        count_in(pairs, key) == 0,
    decreases pairs.len(),
{
    if pairs.len() > 0 {
        assert forall|i: int| 0 <= i < pairs.drop_last().len() implies (#[trigger] pairs.drop_last()[i]).0@
            != key by {}
        lemma_count_absent(pairs.drop_last(), key);
    }
}

proof fn lemma_count_found(pairs: Seq<(String, usize)>, at: int, key: Seq<char>)
    requires
        0 <= at < pairs.len(),
        pairs[at].0@ == key,
        forall|i: int| at < i < pairs.len() ==> (#[trigger] pairs[i]).0@ != key,
    ensures
        count_in(pairs, key) == pairs[at].1,
    decreases pairs.len(),
{
    if at < pairs.len() - 1 {
        assert forall|i: int| at < i < pairs.drop_last().len() implies (#[trigger] pairs.drop_last()[i]).0@
            != key by {}
        lemma_count_found(pairs.drop_last(), at, key);
    }
}

proof fn lemma_count_after_update(
    pairs: Seq<(String, usize)>,
    at: int,
    entry: (String, usize),
    key: Seq<char>,
)
    requires
        0 <= at < pairs.len(),
        entry.0@ == pairs[at].0@,
    ensures
        key != entry.0@ ==> count_in(pairs.update(at, entry), key) == count_in(pairs, key),
    decreases pairs.len(),
{
    let updated = pairs.update(at, entry);
    if key != entry.0@ {
        if at == pairs.len() - 1 {
            assert(updated.drop_last() =~= pairs.drop_last());
        } else {
            assert(updated.drop_last() =~= pairs.drop_last().update(at, entry));
            lemma_count_after_update(pairs.drop_last(), at, entry, key);
        }
    }
}

proof fn lemma_group_absent(groups: Seq<Seq<char>>, key: Seq<char>)
    requires
        forall|i: int| 0 <= i < groups.len() ==> groups[i] != key,
    ensures
        group_number(groups, key) == 0,
    decreases groups.len(),
{
    if groups.len() > 0 {
        lemma_group_absent(groups.drop_last(), key);
    }
}

proof fn lemma_group_found(groups: Seq<Seq<char>>, at: int, key: Seq<char>)
    requires
        0 <= at < groups.len(),
        groups[at] == key,
        forall|i: int| at < i < groups.len() ==> groups[i] != key,
    ensures
        group_number(groups, key) == at + 1,
    decreases groups.len(),
{
    if at < groups.len() - 1 {
        lemma_group_found(groups.drop_last(), at, key);
    }
}

/// The second stage of a run. It keeps the numbers that were handed out, so
/// that a group keeps its number and the files of a group are numbered on.
pub struct Meta {
    args: YeeArgs,
    groups: Vec<String>,
    counters: Vec<(String, usize)>,
}

impl View for Meta {
    type V = MetaModel;

    closed spec fn view(&self) -> MetaModel {
        MetaModel {
            args: self.args@,
            groups: group_keys(self.groups@),
            file_counts: counts_of(self.counters@),
        }
    }
}

impl Meta {
    #[verifier::type_invariant]
    spec fn well_formed(self) -> bool {
        distinct_keys(self.counters@)
    }

    /// No group has so many numbered files that `more` further ones could
    /// not be counted.
    pub open spec fn room_for(&self, more: nat) -> bool {
        forall|key: Seq<char>| file_count(self@.file_counts, key) + more <= usize::MAX
    }

    /// A fresh state for a run with the settings `args`: no group and no file
    /// has a number yet.
    pub fn new(args: YeeArgs) -> (meta: Self)
        ensures
            meta@.args == args@,
            meta@.groups == Seq::<Seq<char>>::empty(),
            meta@.file_counts == Map::<Seq<char>, nat>::empty(),
    {
        let meta = Meta { args: args, groups: Vec::new(), counters: Vec::new() };
        meta
    }

    /// The number of the group `key`, or zero where it has none.
    fn number_of(&self, key: &String) -> (number: usize)
        ensures
            number == group_number(self@.groups, key@),
    {
        let mut end: usize = self.groups.len();
        while end > 0
            invariant
                end <= self.groups@.len(),
                forall|i: int| end <= i < self.groups@.len() ==> group_keys(self.groups@)[i] != key@,
            decreases end,
        {
            if self.groups[end - 1] == *key {
                proof {
                    lemma_group_found(group_keys(self.groups@), end - 1, key@);
                }
                return end;
            }
            end = end - 1;
        }
        proof {
            lemma_group_absent(group_keys(self.groups@), key@);
        }
        0
    }

    /// Gives the group `key` its number, if it has none, and returns it.
    fn register(&mut self, key: String) -> (number: usize)
        ensures
            final(self)@ == (MetaModel { groups: registered(old(self)@.groups, key@), ..old(self)@ }),
            number == group_number(final(self)@.groups, key@),
            number > 0,
    {
        let known = self.number_of(&key);
        if known > 0 {
            return known;
        }
        proof {
            use_type_invariant(&*self);
        }
        let mut groups: Vec<String> = Vec::new();
        std::mem::swap(&mut groups, &mut self.groups);
        groups.push(key);
        let number = groups.len();
        self.groups = groups;
        assert(group_keys(self.groups@) =~= group_keys(old(self).groups@).push(key@));
        number
    }

    /// Counts one more file of the group `key` and returns its number.
    fn count_file(&mut self, key: &String) -> (number: usize)
        requires
            old(self).room_for(1),
        ensures
            final(self)@ == count_step(old(self)@, key@),
            number == file_count(old(self)@.file_counts, key@) + 1,
    {
        proof {
            use_type_invariant(&*self);
        }
        let ghost before = self.counters@;
        let mut end: usize = self.counters.len();
        while end > 0
            invariant
                end <= self.counters@.len(),
                self.counters@ == before,
                *self == *old(self),
                self.room_for(1),
                distinct_keys(before),
                forall|i: int| end <= i < before.len() ==> (#[trigger] before[i]).0@ != key@,
            decreases end,
        {
            if self.counters[end - 1].0 == *key {
                let at = end - 1;
                proof {
                    lemma_count_found(before, at as int, key@);
                }
                let number = self.counters[at].1 + 1;
                let mut counters: Vec<(String, usize)> = Vec::new();
                std::mem::swap(&mut counters, &mut self.counters);
                counters.set(at, (key.clone(), number));
                proof {
                    let after = counters@;
                    assert(distinct_keys(after)) by {
                        assert forall|i: int, j: int| 0 <= i < j < after.len() implies (
                        #[trigger] after[i]).0@ != (#[trigger] after[j]).0@ by {}
                    }
                    lemma_count_found(after, at as int, key@);
                    assert forall|other: Seq<char>| other != key@ implies count_in(after, other)
                        == count_in(before, other) by {
                        lemma_count_after_update(before, at as int, after[at as int], other);
                    }
                    assert(counts_of(after) =~= counted(counts_of(before), key@));
                }
                self.counters = counters;
                return number;
            }
            end = end - 1;
        }
        proof {
            lemma_count_absent(before, key@);
        }
        let mut counters: Vec<(String, usize)> = Vec::new();
        std::mem::swap(&mut counters, &mut self.counters);
        counters.push((key.clone(), 1));
        proof {
            let after = counters@;
            assert(after.drop_last() =~= before);
            assert(distinct_keys(after)) by {
                assert forall|i: int, j: int| 0 <= i < j < after.len() implies (
                #[trigger] after[i]).0@ != (#[trigger] after[j]).0@ by {}
            }
            assert forall|other: Seq<char>| count_in(after, other) == if other == key@ {
                1nat
            } else {
                count_in(before, other)
            } by {}
            assert(counts_of(after) =~= counted(counts_of(before), key@));
        }
        self.counters = counters;
        1
    }

    /// Names the destination folder of the group `group_id`.
    pub fn get_group_folder_name(&mut self, group_id: &str) -> (folder: String)
        ensures
            (final(self)@, folder@) == folder_step(old(self)@, group_id@),
    {
        match self.args.group_style {
            GroupStyle::ShortHash => group_id.to_owned(),
            GroupStyle::Incremental => {
                let number = self.register(group_id.to_owned());
                let digits = zero_padded_decimal(number, 4);
                joined("group_", digits.as_str())
            },
        }
    }

    /// Derives the new name of `file`.
    pub fn get_destination_filename(&mut self, file: &YeeFile) -> (name: String)
        requires
            old(self).room_for(1),
        ensures
            (final(self)@, name@) == name_step(old(self)@, file@),
    {
        proof {
            reveal_strlit("_");
        }
        match self.args.rename_style {
            RenameStyle::Keep => file.filename.clone(),
            RenameStyle::Lowercase => to_lowercase(file.filename.as_str()),
            RenameStyle::Incremental => {
                let number = self.count_file(&file.group_id);
                zero_padded_decimal(number, 4)
            },
            RenameStyle::ShortHash => match &file.hash {
                Some(hash) => leading_chars(hash.as_str(), 8),
                None => file.filename.clone(),
            },
            RenameStyle::Combined => match self.args.group_style {
                GroupStyle::ShortHash => {
                    let group = leading_chars(file.group_id.as_str(), 6);
                    let front = joined(group.as_str(), "_");
                    match &file.hash {
                        Some(hash) => {
                            let back = leading_chars(hash.as_str(), 8);
                            joined(front.as_str(), back.as_str())
                        },
                        None => {
                            let number = self.count_file(&file.group_id);
                            let back = zero_padded_decimal(number, 4);
                            joined(front.as_str(), back.as_str())
                        },
                    }
                },
                GroupStyle::Incremental => {
                    let group = zero_padded_decimal(self.number_of(&file.group_id), 3);
                    let front = joined(group.as_str(), "_");
                    let number = self.count_file(&file.group_id);
                    let back = zero_padded_decimal(number, 4);
                    joined(front.as_str(), back.as_str())
                },
            },
        }
    }

    /// Gives `file` its destination: its folder, the full path of that
    /// folder below the destination root, and its new name.
    pub fn set_destination_paths(&mut self, file: &mut YeeFile)
        requires
            old(self).room_for(1),
        ensures
            (final(self)@, final(file)@) == placed(old(self)@, old(file)@),
    {
        let folder = self.get_group_folder_name(file.group_id.as_str());
        assert(self.room_for(1));
        let name = self.get_destination_filename(file);
        let directory = join_of(self.args.destination_dir.as_str(), folder.as_str());
        file.destination_full_path = directory;
        file.destination_local_path = folder;
        file.filename = name;
    }

    /// Runs the stage over `files`. Each file gets the hash that its digest
    /// gives, where one was handed in at its position in `digests`; a file
    /// that could not be read has none there and keeps what it had. Then each
    /// file gets its destination, in the order of `files`. Returns the
    /// directories that are to be made before anything is placed; in a dry run
    /// there are none.
    pub fn process(&mut self, files: &mut Vec<YeeFile>, digests: &Vec<Option<u64>>) -> (plan: Vec<
        FsAction,
    >)
        requires
            old(self).room_for(old(files)@.len()),
        ensures
            (final(self)@, models(final(files)@)) == placed_all(
                old(self)@,
                hashed_all(models(old(files)@), digests@),
                old(files)@.len(),
            ),
            crate::actions::plan_of(plan@) == directories(
                old(self)@.args.dry,
                models(final(files)@),
            ),
    {
        let ghost given = hashed_all(models(old(files)@), digests@);
        let count = files.len();
        let mut plan: Vec<FsAction> = Vec::new();
        let mut at: usize = 0;
        while at < count
            invariant
                at <= count,
                count == files@.len(),
                count == old(files)@.len(),
                given == hashed_all(models(old(files)@), digests@),
                self.room_for((count - at) as nat),
                self@.args == old(self)@.args,
                forall|i: int| at <= i < count ==> files@[i] == old(files)@[i],
                (self@, models(files@).take(at as int)) == placed_all(old(self)@, given, at as nat),
                crate::actions::plan_of(plan@) == directories(
                    old(self)@.args.dry,
                    models(files@).take(at as int),
                ),
            decreases count - at,
        {
            let mut file = files[at].clone();
            if at < digests.len() {
                match digests[at] {
                    Some(digest) => {
                        file.hash = Some(digest_text(digest));
                    },
                    None => {},
                }
            }
            assert(self.room_for(1)) by {
                assert forall|key: Seq<char>| file_count(self@.file_counts, key) + 1
                    <= usize::MAX by {}
            }
            self.set_destination_paths(&mut file);
            assert(self.room_for((count - at - 1) as nat)) by {
                assert forall|key: Seq<char>|
                    file_count(self@.file_counts, key) + (count - at - 1) <= usize::MAX by {}
            }
            let ghost plan_before = plan@;
            if !self.args.dry {
                plan.push(FsAction::CreateDirAll { path: file.destination_full_path.clone() });
            }
            let ghost placed_file = file@;
            files.set(at, file);
            proof {
                if !self@.args.dry {
                    let request = ActionModel::CreateDirAll {
                        path: placed_file.destination_full_path,
                    };
                    assert(crate::actions::plan_of(plan@) =~= crate::actions::plan_of(
                        plan_before,
                    ).push(request));
                }
            }
            at = at + 1;
        }
        plan
    }

    /// Tells whether `more` further files can be counted in every group.
    pub fn has_room_for(&self, more: usize) -> (enough: bool)
        ensures
            enough == self.room_for(more as nat),
    {
        proof {
            use_type_invariant(self);
        }
        let mut at: usize = 0;
        while at < self.counters.len()
            invariant
                at <= self.counters@.len(),
                distinct_keys(self.counters@),
                forall|i: int| 0 <= i < at ==> (#[trigger] self.counters@[i]).1 + more <= usize::MAX,
            decreases self.counters@.len() - at,
        {
            if self.counters[at].1 > usize::MAX - more {
                proof {
                    let key = self.counters@[at as int].0@;
                    lemma_count_found(self.counters@, at as int, key);
                    assert(file_count(self@.file_counts, key) == self.counters@[at as int].1);
                }
                return false;
            }
            at = at + 1;
        }
        proof {
            assert forall|key: Seq<char>| file_count(self@.file_counts, key) + more
                <= usize::MAX by {
                lemma_count_bounded(self.counters@, key, (usize::MAX - more) as nat);
            }
        }
        true
    }
}

proof fn lemma_count_bounded(pairs: Seq<(String, usize)>, key: Seq<char>, bound: nat)
    requires
        forall|i: int| 0 <= i < pairs.len() ==> (#[trigger] pairs[i]).1 <= bound,
    ensures
        count_in(pairs, key) <= bound,
    decreases pairs.len(),
{
    if pairs.len() > 0 {
        assert forall|i: int| 0 <= i < pairs.drop_last().len() implies (#[trigger] pairs.drop_last()[i]).1
            <= bound by {}
        lemma_count_bounded(pairs.drop_last(), key, bound);
    }
}

} // verus!
