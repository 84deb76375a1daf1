//! Placement: what is to be written, copied and deleted so that every file
//! stands at its destination.
//!
//! The stage plans and does not act. It hands out the requests in the order
//! they are to be performed: first the records and the summary of each
//! group, then, file by file, the directory, the copy and, unless files are
//! only copied, the deletion of the source.

use vstd::prelude::*;
use vstd::string::*;
use crate::actions::{
    deletes_follow_copies, deletion_in_place, plan_of, ActionModel, FsAction, GroupSummary,
    SummaryModel,
};
use crate::args::{ArgsModel, YeeArgs};
use crate::meta::{group_number, registered};
use crate::paths::{join_of, parent_of, path_join, path_parent, path_strip_prefix, strip_prefix_of};
use crate::text::joined;
use crate::yee_file::{full_name, models, path_in, source_of, FileModel, YeeFile};

verus! {

/// The groups of the first `count` of `files`, each once, in the order they
/// are first seen.
pub open spec fn groups_seen(files: Seq<FileModel>, count: nat) -> Seq<Seq<char>>
    decreases count,
{
    if count == 0 {
        Seq::empty()
    } else {
        registered(groups_seen(files, (count - 1) as nat), files[count - 1].group_id)
    }
}

/// Those of the first `count` of `files` that belong to the group `key`, in
/// their order.
pub open spec fn members(files: Seq<FileModel>, key: Seq<char>, count: nat) -> Seq<FileModel>
    decreases count,
{
    if count == 0 {
        Seq::empty()
    } else if files[count - 1].group_id == key {
        members(files, key, (count - 1) as nat).push(files[count - 1])
    } else {
        members(files, key, (count - 1) as nat)
    }
}

/// The directory that holds the records of a group: `.yeehaw` in the
/// destination folder of the group's first file, or in the destination root
/// where that file has no folder.
pub open spec fn records_directory(destination_root: Seq<char>, first: FileModel) -> Seq<char> {
    if first.destination_local_path.len() == 0 {
        path_join(destination_root, ".yeehaw"@)
    } else {
        path_join(path_join(destination_root, first.destination_local_path), ".yeehaw"@)
    }
}

/// Where the record of `file` is written: `{group}_{name}_{extension}.yaml`
/// in the records directory.
pub open spec fn record_path(directory: Seq<char>, key: Seq<char>, file: FileModel) -> Seq<char> {
    path_join(directory, key + "_"@ + file.filename + "_"@ + file.extension + ".yaml"@)
}

/// Where the summary of the group `key` is written: `{group}_summary.yaml`
/// in the records directory.
pub open spec fn summary_path(directory: Seq<char>, key: Seq<char>) -> Seq<char> {
    path_join(directory, key + "_summary.yaml"@)
}

/// The summary of the group `key` with the files `group`.
pub open spec fn summary_of(key: Seq<char>, group: Seq<FileModel>) -> SummaryModel {
    SummaryModel {
        group_id: key,
        file_count: group.len(),
        files: Seq::new(group.len(), |i: int| full_name(group[i])),
    }
}

/// The requests that write down the group `key` with the files `group`: make
/// the records directory, write the record of each file, in their order, and
/// write the summary. A group without files asks for nothing.
pub open spec fn group_records(
    destination_root: Seq<char>,
    key: Seq<char>,
    group: Seq<FileModel>,
) -> Seq<ActionModel> {
    if group.len() == 0 {
        Seq::empty()
    } else {
        let directory = records_directory(destination_root, group[0]);
        seq![ActionModel::CreateDirAll { path: directory }] + Seq::new(
            group.len(),
            |i: int|
                ActionModel::WriteRecord {
                    path: record_path(directory, key, group[i]),
                    record: group[i],
                },
        ) + seq![
            ActionModel::WriteSummary {
                path: summary_path(directory, key),
                summary: summary_of(key, group),
            },
        ]
    }
}

/// The requests that write down the first `count` of `groups`, one group
/// after the other.
pub open spec fn records(
    destination_root: Seq<char>,
    files: Seq<FileModel>,
    groups: Seq<Seq<char>>,
    count: nat,
) -> Seq<ActionModel>
    decreases count,
{
    if count == 0 {
        Seq::empty()
    } else {
        records(destination_root, files, groups, (count - 1) as nat) + group_records(
            destination_root,
            groups[count - 1],
            members(files, groups[count - 1], files.len()),
        )
    }
}

/// The requests that bring the file at `source` to `destination`: make the
/// directory above the destination, copy, and delete the source unless files
/// are only copied.
pub open spec fn transfer(copy_mode: bool, source: Seq<char>, destination: Seq<char>) -> Seq<
    ActionModel,
> {
    let make = match path_parent(destination) {
        Some(directory) => seq![ActionModel::CreateDirAll { path: directory }],
        None => Seq::empty(),
    };
    let copy = seq![ActionModel::CopyFile { from: source, to: destination }];
    let delete = if copy_mode {
        Seq::empty()
    } else {
        seq![ActionModel::RemoveFile { path: source }]
    };
    make + copy + delete
}

/// The directory a duplicate goes to: below `_dupes` in the destination
/// root, laid out as the destination of the file is laid out below that
/// root.
pub open spec fn duplicate_directory(destination_root: Seq<char>, file: FileModel) -> Seq<char> {
    let layout = match path_strip_prefix(file.destination_full_path, destination_root) {
        Some(below_root) => below_root,
        None => file.destination_local_path,
    };
    path_join(path_join(destination_root, "_dupes"@), layout)
}

/// Where `file` is to stand: in its destination directory, or, as a
/// duplicate, in its directory below `_dupes`.
pub open spec fn target(args: ArgsModel, file: FileModel, duplicate: bool) -> Seq<char> {
    if duplicate {
        path_in(duplicate_directory(args.destination_dir, file), file)
    } else {
        path_in(file.destination_full_path, file)
    }
}

/// The requests that place `file`.
pub open spec fn placement(args: ArgsModel, file: FileModel, duplicate: bool) -> Seq<ActionModel> {
    transfer(args.copy_mode, source_of(file), target(args, file, duplicate))
}

/// The requests that place the first `count` of `files`, one file after the
/// other.
pub open spec fn placements(args: ArgsModel, files: Seq<FileModel>, duplicate: bool, count: nat) -> Seq<
    ActionModel,
>
    decreases count,
{
    if count == 0 {
        Seq::empty()
    } else {
        placements(args, files, duplicate, (count - 1) as nat) + placement(
            args,
            files[count - 1],
            duplicate,
        )
    }
}

/// The whole plan for `files`: nothing in a dry run; else the records of
/// every group, the groups in the order they are first seen, and then the
/// placement of every file.
pub open spec fn batch_plan(args: ArgsModel, files: Seq<FileModel>, duplicate: bool) -> Seq<
    ActionModel,
> {
    if args.dry {
        Seq::empty()
    } else {
        let groups = groups_seen(files, files.len());
        records(args.destination_dir, files, groups, groups.len()) + placements(
            args,
            files,
            duplicate,
            files.len(),
        )
    }
}

/// Nothing in `plan` copies or deletes a file.
pub open spec fn writes_only(plan: Seq<ActionModel>) -> bool {
    forall|i: int|
        0 <= i < plan.len() ==> !((#[trigger] plan[i]) is CopyFile) && !(plan[i] is RemoveFile)
}

/// Nothing in `plan` writes a record or a summary.
pub open spec fn moves_only(plan: Seq<ActionModel>) -> bool {
    forall|i: int|
        0 <= i < plan.len() ==> !((#[trigger] plan[i]) is WriteRecord) && !(plan[i]
            is WriteSummary)
}

/// Nothing in `plan` deletes a file.
pub open spec fn deletes_nothing(plan: Seq<ActionModel>) -> bool {
    forall|i: int| 0 <= i < plan.len() ==> !((#[trigger] plan[i]) is RemoveFile)
}

proof fn lemma_records_write_only(
    destination_root: Seq<char>,
    files: Seq<FileModel>,
    groups: Seq<Seq<char>>,
    count: nat,
)
    ensures
        writes_only(records(destination_root, files, groups, count)),
    decreases count,
{
    if count > 0 {
        lemma_records_write_only(destination_root, files, groups, (count - 1) as nat);
    }
}

proof fn lemma_joined_plans(first: Seq<ActionModel>, second: Seq<ActionModel>)
    requires
        deletes_follow_copies(first),
        deletes_follow_copies(second),
    ensures
        deletes_follow_copies(first + second),
        deletes_nothing(first) && deletes_nothing(second) ==> deletes_nothing(first + second),
        moves_only(first) && moves_only(second) ==> moves_only(first + second),
{
    let both = first + second;
    assert forall|position: int| 0 <= position < both.len() implies #[trigger] deletion_in_place(
        both,
        position,
    ) by {
        if position < first.len() {
            assert(deletion_in_place(first, position));
        } else {
            assert(deletion_in_place(second, position - first.len()));
        }
    }
}

proof fn lemma_transfer_is_sound(copy_mode: bool, source: Seq<char>, destination: Seq<char>)
    ensures
        deletes_follow_copies(transfer(copy_mode, source, destination)),
        moves_only(transfer(copy_mode, source, destination)),
        copy_mode ==> deletes_nothing(transfer(copy_mode, source, destination)),
{
    let plan = transfer(copy_mode, source, destination);
    assert forall|position: int| 0 <= position < plan.len() implies #[trigger] deletion_in_place(
        plan,
        position,
    ) by {}
}

proof fn lemma_placements_are_sound(
    args: ArgsModel,
    files: Seq<FileModel>,
    duplicate: bool,
    count: nat,
)
    ensures
        deletes_follow_copies(placements(args, files, duplicate, count)),
        moves_only(placements(args, files, duplicate, count)),
        args.copy_mode ==> deletes_nothing(placements(args, files, duplicate, count)),
    decreases count,
{
    if count > 0 {
        let file = files[count - 1];
        lemma_placements_are_sound(args, files, duplicate, (count - 1) as nat);
        lemma_transfer_is_sound(
            args.copy_mode,
            source_of(file),
            target(args, file, duplicate),
        );
        lemma_joined_plans(
            placements(args, files, duplicate, (count - 1) as nat),
            placement(args, file, duplicate),
        );
    }
}

/// The copy that places `file`: from where it was found to where it is to
/// stand.
pub open spec fn copy_of(args: ArgsModel, file: FileModel, duplicate: bool) -> ActionModel {
    ActionModel::CopyFile { from: source_of(file), to: target(args, file, duplicate) }
}

proof fn lemma_placements_copy_the_files(
    args: ArgsModel,
    files: Seq<FileModel>,
    duplicate: bool,
    count: nat,
)
    requires
        count <= files.len(),
    ensures
        forall|i: int|
            0 <= i < count ==> placements(args, files, duplicate, count).contains(
                #[trigger] copy_of(args, files[i], duplicate),
            ),
        forall|position: int|
            0 <= position < placements(args, files, duplicate, count).len() && (
            #[trigger] placements(args, files, duplicate, count)[position]) is CopyFile
                ==> exists|i: int|
                0 <= i < count && placements(args, files, duplicate, count)[position]
                    == #[trigger] copy_of(args, files[i], duplicate),
    decreases count,
{
    if count > 0 {
        let before = placements(args, files, duplicate, (count - 1) as nat);
        let last = placement(args, files[count - 1], duplicate);
        let all = placements(args, files, duplicate, count);
        lemma_placements_copy_the_files(args, files, duplicate, (count - 1) as nat);
        assert forall|i: int| 0 <= i < count implies all.contains(
            #[trigger] copy_of(args, files[i], duplicate),
        ) by {
            let wanted = copy_of(args, files[i], duplicate);
            if i < count - 1 {
                let at = choose|at: int| 0 <= at < before.len() && before[at] == wanted;
                assert(all[at] == wanted);
            } else {
                let at = if path_parent(target(args, files[i], duplicate)) is Some {
                    1int
                } else {
                    0int
                };
                assert(last[at] == wanted);
                assert(all[before.len() + at] == wanted);
            }
        }
        assert forall|position: int|
            0 <= position < all.len() && (#[trigger] all[position]) is CopyFile implies exists|
            i: int,
        |
            0 <= i < count && all[position] == #[trigger] copy_of(args, files[i], duplicate) by {
            if position < before.len() {
                assert(before[position] is CopyFile);
                let i = choose|i: int|
                    0 <= i < count - 1 && before[position] == #[trigger] copy_of(
                        args,
                        files[i],
                        duplicate,
                    );
                assert(all[position] == copy_of(args, files[i], duplicate));
            } else {
                assert(all[position] == last[position - before.len()]);
                assert(all[position] == copy_of(args, files[count - 1], duplicate));
            }
        }
    }
}

/// Every file of a batch is copied from where it was found to where it is to
/// stand, whatever name it was given on the way, and nothing else is copied.
pub proof fn lemma_files_are_copied_from_where_they_were_found(
    args: ArgsModel,
    files: Seq<FileModel>,
    duplicate: bool,
)
    requires
        !args.dry,
    ensures
        forall|i: int|
            0 <= i < files.len() ==> batch_plan(args, files, duplicate).contains(
                #[trigger] copy_of(args, files[i], duplicate),
            ),
        forall|position: int|
            0 <= position < batch_plan(args, files, duplicate).len() && (#[trigger] batch_plan(
                args,
                files,
                duplicate,
            )[position]) is CopyFile ==> exists|i: int|
                0 <= i < files.len() && batch_plan(args, files, duplicate)[position]
                    == #[trigger] copy_of(args, files[i], duplicate),
{
    let groups = groups_seen(files, files.len());
    let written = records(args.destination_dir, files, groups, groups.len());
    let moved = placements(args, files, duplicate, files.len());
    let plan = batch_plan(args, files, duplicate);
    lemma_records_write_only(args.destination_dir, files, groups, groups.len());
    lemma_placements_copy_the_files(args, files, duplicate, files.len());
    assert forall|i: int| 0 <= i < files.len() implies plan.contains(
        #[trigger] copy_of(args, files[i], duplicate),
    ) by {
        let wanted = copy_of(args, files[i], duplicate);
        let at = choose|at: int| 0 <= at < moved.len() && moved[at] == wanted;
        assert(plan[written.len() + at] == wanted);
    }
    assert forall|position: int|
        0 <= position < plan.len() && (#[trigger] plan[position]) is CopyFile implies exists|
        i: int,
    |
        0 <= i < files.len() && plan[position] == #[trigger] copy_of(args, files[i], duplicate) by {
        if position < written.len() {
            assert(written[position] is CopyFile);
        } else {
            assert(plan[position] == moved[position - written.len()]);
        }
    }
}

/// In every plan of this stage a file is deleted only directly behind its own
/// copy. So a run of the plan deletes a source only after its copy
/// succeeded.
pub proof fn lemma_plan_deletes_follow_copies(
    args: ArgsModel,
    files: Seq<FileModel>,
    duplicate: bool,
)
    ensures
        deletes_follow_copies(batch_plan(args, files, duplicate)),
{
    if !args.dry {
        let groups = groups_seen(files, files.len());
        let written = records(args.destination_dir, files, groups, groups.len());
        lemma_records_write_only(args.destination_dir, files, groups, groups.len());
        assert forall|position: int| 0 <= position < written.len() implies #[trigger] deletion_in_place(
            written,
            position,
        ) by {}
        lemma_placements_are_sound(args, files, duplicate, files.len());
        lemma_joined_plans(written, placements(args, files, duplicate, files.len()));
    }
}

/// Where files are copied, no plan deletes a file: the sources stay.
pub proof fn lemma_copy_mode_keeps_sources(args: ArgsModel, files: Seq<FileModel>, duplicate: bool)
    requires
        args.copy_mode,
    ensures
        deletes_nothing(batch_plan(args, files, duplicate)),
{
    if !args.dry {
        let groups = groups_seen(files, files.len());
        let written = records(args.destination_dir, files, groups, groups.len());
        lemma_records_write_only(args.destination_dir, files, groups, groups.len());
        lemma_placements_are_sound(args, files, duplicate, files.len());
        assert forall|position: int| 0 <= position < written.len() implies #[trigger] deletion_in_place(
            written,
            position,
        ) by {}
        lemma_joined_plans(written, placements(args, files, duplicate, files.len()));
    }
}

/// The records of every group are written before any file is placed: the
/// plan is the writing of the records, which copies and deletes nothing,
/// followed by the placements, which write no record.
pub proof fn lemma_records_come_first(args: ArgsModel, files: Seq<FileModel>, duplicate: bool)
    requires
        !args.dry,
    ensures
        batch_plan(args, files, duplicate) == records(
            args.destination_dir,
            files,
            groups_seen(files, files.len()),
            groups_seen(files, files.len()).len(),
        ) + placements(args, files, duplicate, files.len()),
        writes_only(
            records(
                args.destination_dir,
                files,
                groups_seen(files, files.len()),
                groups_seen(files, files.len()).len(),
            ),
        ),
        moves_only(placements(args, files, duplicate, files.len())),
{
    let groups = groups_seen(files, files.len());
    lemma_records_write_only(args.destination_dir, files, groups, groups.len());
    lemma_placements_are_sound(args, files, duplicate, files.len());
}

/// A dry run plans nothing, whatever the files.
pub proof fn lemma_dry_run_plans_nothing(args: ArgsModel, files: Seq<FileModel>, duplicate: bool)
    requires
        args.dry,
    ensures
        batch_plan(args, files, duplicate).len() == 0,
{
}

/// Puts one more request at the end of a plan.
fn plan_push(plan: &mut Vec<FsAction>, action: FsAction)
    ensures
        plan_of(final(plan)@) == plan_of(old(plan)@).push(action@),
{
    plan.push(action);
}

/// The last stage of a run.
pub struct Mover {
    args: YeeArgs,
}

impl View for Mover {
    type V = ArgsModel;

    closed spec fn view(&self) -> ArgsModel {
        self.args@
    }
}

impl Mover {
    /// A mover for a run with the settings `args`.
    pub fn new(args: YeeArgs) -> (mover: Self)
        ensures
            mover@ == args@,
    {
        Mover { args }
    }

    /// The groups of `files`, each once, in the order they are first seen.
    fn groups_of(files: &Vec<YeeFile>) -> (groups: Vec<String>)
        ensures
            groups@.map_values(|group: String| group@) == groups_seen(
                models(files@),
                files@.len(),
            ),
    {
        let mut groups: Vec<String> = Vec::new();
        let mut at: usize = 0;
        while at < files.len()
            invariant
                at <= files@.len(),
                groups@.map_values(|group: String| group@) == groups_seen(
                    models(files@),
                    at as nat,
                ),
            decreases files@.len() - at,
        {
            let key = &files[at].group_id;
            let ghost seen = groups@.map_values(|group: String| group@);
            let mut known = false;
            let mut look: usize = 0;
            while look < groups.len()
                invariant
                    look <= groups@.len(),
                    seen == groups@.map_values(|group: String| group@),
                    known <==> exists|i: int| 0 <= i < look && seen[i] == key@,
                decreases groups@.len() - look,
            {
                if groups[look] == *key {
                    assert(seen[look as int] == key@);
                    known = true;
                }
                look = look + 1;
            }
            proof {
                crate::meta::lemma_group_number_is_a_place(seen, key@);
                if known {
                    let i = choose|i: int| 0 <= i < seen.len() && seen[i] == key@;
                    assert(seen.contains(key@));
                }
            }
            if !known {
                groups.push(key.clone());
            }
            at = at + 1;
        }
        groups
    }

    /// The files of the group `key` among `files`, in their order.
    fn members_of(files: &Vec<YeeFile>, key: &String) -> (group: Vec<YeeFile>)
        ensures
            models(group@) == members(models(files@), key@, files@.len()),
    {
        let mut group: Vec<YeeFile> = Vec::new();
        let mut at: usize = 0;
        while at < files.len()
            invariant
                at <= files@.len(),
                models(group@) == members(models(files@), key@, at as nat),
            decreases files@.len() - at,
        {
            if files[at].group_id == *key {
                group.push(files[at].clone());
            }
            at = at + 1;
        }
        group
    }

    /// Adds to `plan` the requests that write down the group `key` with its
    /// files `group`: the record of each file and the summary of the group.
    fn write_group_metadata(&self, plan: &mut Vec<FsAction>, key: &String, group: &Vec<YeeFile>)
        ensures
            plan_of(final(plan)@) == plan_of(old(plan)@) + group_records(
                self@.destination_dir,
                key@,
                models(group@),
            ),
    {
        if group.len() == 0 {
            return ;
        }
        let first = &group[0];
        let folder = if first.destination_local_path.as_str().is_empty() {
            join_of(self.args.destination_dir.as_str(), ".yeehaw")
        } else {
            let inside = join_of(
                self.args.destination_dir.as_str(),
                first.destination_local_path.as_str(),
            );
            join_of(inside.as_str(), ".yeehaw")
        };
        let ghost directory = records_directory(self@.destination_dir, models(group@)[0]);
        plan_push(plan, FsAction::CreateDirAll { path: folder.clone() });
        let mut names: Vec<String> = Vec::new();
        let mut at: usize = 0;
        while at < group.len()
            invariant
                at <= group@.len(),
                folder@ == directory,
                names@.map_values(|name: String| name@) == Seq::new(
                    at as nat,
                    |i: int| full_name(models(group@)[i]),
                ),
                plan_of(plan@) == plan_of(old(plan)@) + seq![
                    ActionModel::CreateDirAll { path: directory },
                ] + Seq::new(
                    at as nat,
                    |i: int|
                        ActionModel::WriteRecord {
                            path: record_path(directory, key@, models(group@)[i]),
                            record: models(group@)[i],
                        },
                ),
            decreases group@.len() - at,
        {
            let file = &group[at];
            let ghost names_before = names@.map_values(|name: String| name@);
            let front = joined(key.as_str(), "_");
            let stem = joined(front.as_str(), file.filename.as_str());
            let middle = joined(stem.as_str(), "_");
            let whole = joined(middle.as_str(), file.extension.as_str());
            let name = joined(whole.as_str(), ".yaml");
            let path = join_of(folder.as_str(), name.as_str());
            plan_push(plan, FsAction::WriteRecord { path: path, record: file.clone() });
            names.push(file.full_name());
            at = at + 1;
            proof {
                assert(names@.map_values(|name: String| name@) =~= names_before.push(
                    full_name(file@),
                ));
            }
        }
        let name = joined(key.as_str(), "_summary.yaml");
        let path = join_of(folder.as_str(), name.as_str());
        let summary = GroupSummary { group_id: key.clone(), file_count: group.len(), files: names };
        plan_push(plan, FsAction::WriteSummary { path: path, summary: summary });
    }

    /// Adds to `plan` the requests that bring the file at `source` to
    /// `destination`.
    fn plan_transfer(&self, plan: &mut Vec<FsAction>, source: String, destination: String)
        ensures
            plan_of(final(plan)@) == plan_of(old(plan)@) + transfer(
                self@.copy_mode,
                source@,
                destination@,
            ),
    {
        match parent_of(destination.as_str()) {
            Some(directory) => {
                plan_push(plan, FsAction::CreateDirAll { path: directory });
            },
            None => {},
        }
        if self.args.copy_mode {
            plan_push(plan, FsAction::CopyFile { from: source, to: destination });
        } else {
            plan_push(plan, FsAction::CopyFile { from: source.clone(), to: destination });
            plan_push(plan, FsAction::RemoveFile { path: source });
        }
    }

    /// Adds to `plan` the requests that place `file` at its destination.
    fn process_single_file(&self, plan: &mut Vec<FsAction>, file: &YeeFile)
        ensures
            plan_of(final(plan)@) == plan_of(old(plan)@) + placement(self@, file@, false),
    {
        self.plan_transfer(plan, file.source_path(), file.destination_path());
    }

    /// Adds to `plan` the requests that place `file` below `_dupes`.
    fn process_duplicate_file(&self, plan: &mut Vec<FsAction>, file: &YeeFile)
        ensures
            plan_of(final(plan)@) == plan_of(old(plan)@) + placement(self@, file@, true),
    {
        let root = join_of(self.args.destination_dir.as_str(), "_dupes");
        let directory = match strip_prefix_of(
            file.destination_full_path.as_str(),
            self.args.destination_dir.as_str(),
        ) {
            Some(below_root) => join_of(root.as_str(), below_root.as_str()),
            None => join_of(root.as_str(), file.destination_local_path.as_str()),
        };
        proof {
            reveal_strlit("/");
        }
        let front = joined(directory.as_str(), "/");
        let destination = joined(front.as_str(), file.full_name().as_str());
        assert(destination@ =~= target(self@, file@, true));
        self.plan_transfer(plan, file.source_path(), destination);
    }

    /// The plan for a batch of files, originals or duplicates.
    fn plan_batch(&self, files: &Vec<YeeFile>, duplicate: bool) -> (plan: Vec<FsAction>)
        ensures
            plan_of(plan@) == batch_plan(self@, models(files@), duplicate),
    {
        let mut plan: Vec<FsAction> = Vec::new();
        if self.args.dry {
            return plan;
        }
        let groups = Self::groups_of(files);
        let ghost keys = groups_seen(models(files@), files@.len());
        let mut at: usize = 0;
        while at < groups.len()
            invariant
                at <= groups@.len(),
                keys == groups@.map_values(|group: String| group@),
                plan_of(plan@) == records(
                    self@.destination_dir,
                    models(files@),
                    keys,
                    at as nat,
                ),
            decreases groups@.len() - at,
        {
            let key = &groups[at];
            let group = Self::members_of(files, key);
            self.write_group_metadata(&mut plan, key, &group);
            at = at + 1;
        }
        let ghost written = plan_of(plan@);
        let mut at: usize = 0;
        while at < files.len()
            invariant
                at <= files@.len(),
                plan_of(plan@) == written + placements(
                    self@,
                    models(files@),
                    duplicate,
                    at as nat,
                ),
            decreases files@.len() - at,
        {
            let file = &files[at];
            if duplicate {
                self.process_duplicate_file(&mut plan, file);
            } else {
                self.process_single_file(&mut plan, file);
            }
            at = at + 1;
        }
        plan
    }

    /// Plans the placement of the originals `files`, each at
    /// `{destination directory}/{name}.{extension}`. In a dry run the plan is
    /// empty.
    pub fn move_files(&self, files: Vec<YeeFile>) -> (plan: Vec<FsAction>)
        ensures
            plan_of(plan@) == batch_plan(self@, models(files@), false),
    {
        self.plan_batch(&files, false)
    }

    /// Plans the placement of the duplicates, each below `_dupes` in the
    /// destination root, laid out there as its destination is laid out below
    /// the root. Their records are written apart from those of the
    /// originals, group by group. In a dry run the plan is empty.
    pub fn move_duplicates(&self, duplicates: Vec<YeeFile>) -> (plan: Vec<FsAction>)
        ensures
            plan_of(plan@) == batch_plan(self@, models(duplicates@), true),
    {
        self.plan_batch(&duplicates, true)
    }
}

} // verus!
