//! What a stage asks of the file system, and how a run of such requests
//! goes on after each of them.
//!
//! The library never touches the disk. A stage hands out a plan, a list of
//! [`FsAction`]s in the order they are to be performed. Whoever performs them
//! reports after each whether it succeeded, and [`next_step`] decides what
//! comes next: the following action, the end of the plan, or its abortion.

use vstd::prelude::*;
use crate::yee_file::{FileModel, YeeFile};

verus! {

/// The summary of one group, written beside the records of its files.
#[derive(Debug, PartialEq, Eq)]
pub struct GroupSummary {
    /// The group.
    pub group_id: String,
    /// How many files of the group are placed.
    pub file_count: usize,
    /// `{name}.{extension}` of each of them.
    pub files: Vec<String>,
}

/// What the contracts say of a [`GroupSummary`].
pub struct SummaryModel {
    pub group_id: Seq<char>,
    pub file_count: nat,
    pub files: Seq<Seq<char>>,
}

impl View for GroupSummary {
    type V = SummaryModel;

    open spec fn view(&self) -> SummaryModel {
        SummaryModel {
            group_id: self.group_id@,
            file_count: self.file_count as nat,
            files: self.files@.map_values(|name: String| name@),
        }
    }
}

/// One request to the file system.
#[derive(Debug, PartialEq, Eq)]
pub enum FsAction {
    /// Create the directory and every missing directory above it.
    CreateDirAll { path: String },
    /// Write the record of a file, in a structured text format, to `path`.
    WriteRecord { path: String, record: YeeFile },
    /// Write the summary of a group, in the same format, to `path`.
    WriteSummary { path: String, summary: GroupSummary },
    /// Copy the content of the file `from` to the file `to`.
    CopyFile { from: String, to: String },
    /// Delete the file.
    RemoveFile { path: String },
}

/// What the contracts say of an [`FsAction`].
pub enum ActionModel {
    CreateDirAll { path: Seq<char> },
    WriteRecord { path: Seq<char>, record: FileModel },
    WriteSummary { path: Seq<char>, summary: SummaryModel },
    CopyFile { from: Seq<char>, to: Seq<char> },
    RemoveFile { path: Seq<char> },
}

impl View for FsAction {
    type V = ActionModel;

    open spec fn view(&self) -> ActionModel {
        match self {
            FsAction::CreateDirAll { path } => ActionModel::CreateDirAll { path: path@ },
            FsAction::WriteRecord { path, record } => ActionModel::WriteRecord {
                path: path@,
                record: record@,
            },
            FsAction::WriteSummary { path, summary } => ActionModel::WriteSummary {
                path: path@,
                summary: summary@,
            },
            FsAction::CopyFile { from, to } => ActionModel::CopyFile { from: from@, to: to@ },
            FsAction::RemoveFile { path } => ActionModel::RemoveFile { path: path@ },
        }
    }
}

/// The views of a plan.
pub open spec fn plan_of(actions: Seq<FsAction>) -> Seq<ActionModel> {
    actions.map_values(|action: FsAction| action@)
}

/// How a run goes on.
#[derive(Copy, Clone, Debug, PartialEq, Eq, Structural)]
pub enum Step {
    /// Perform the action at this position of the plan.
    Perform(usize),
    /// Every action was performed or skipped; the run is over.
    Finished,
    /// An action failed that the rest depends on; the run is given up.
    Aborted,
}

/// A failure of this action ends the run: a directory that cannot be made, a
/// record or a summary that cannot be written.
pub open spec fn is_fatal(action: ActionModel) -> bool {
    action is CreateDirAll || action is WriteRecord || action is WriteSummary
}

/// The position that follows `done`. A copy that failed takes the deletion of
/// its source with it; a failed deletion is passed over.
pub open spec fn following(plan: Seq<ActionModel>, done: int, succeeded: bool) -> int {
    if !succeeded && plan[done] is CopyFile && done + 1 < plan.len() && plan[done + 1]
        is RemoveFile {
        done + 2
    } else {
        done + 1
    }
}

/// How the run of `plan` goes on once the action at `done` has succeeded or
/// failed.
pub open spec fn step_after(plan: Seq<ActionModel>, done: int, succeeded: bool) -> Step {
    if done >= plan.len() {
        Step::Finished
    } else if !succeeded && is_fatal(plan[done]) {
        Step::Aborted
    } else if following(plan, done, succeeded) < plan.len() {
        Step::Perform(following(plan, done, succeeded) as usize)
    } else {
        Step::Finished
    }
}

/// The action at `position` is no deletion, or it deletes the file whose copy
/// stands directly before it.
pub open spec fn deletion_in_place(plan: Seq<ActionModel>, position: int) -> bool {
    plan[position] is RemoveFile ==> position > 0 && plan[position - 1] is CopyFile
        && plan[position - 1]->from == plan[position]->RemoveFile_path
}

/// In `plan`, a file is deleted only directly after it was copied.
pub open spec fn deletes_follow_copies(plan: Seq<ActionModel>) -> bool {
    forall|position: int|
        0 <= position < plan.len() ==> #[trigger] deletion_in_place(plan, position)
}

/// A source is deleted only after its copy succeeded: where the run of such a
/// plan goes on to a deletion, the action just performed was the copy of that
/// very file, and it succeeded.
pub proof fn lemma_delete_only_after_copy(plan: Seq<ActionModel>, done: int, succeeded: bool)
    requires
        deletes_follow_copies(plan),
        0 <= done < plan.len() <= usize::MAX,
    ensures
        step_after(plan, done, succeeded) matches Step::Perform(next) ==> (plan[next as int]
            is RemoveFile ==> succeeded && next == done + 1 && plan[done] is CopyFile
            && plan[done]->from == plan[next as int]->RemoveFile_path),
{
    let next = following(plan, done, succeeded);
    if next < plan.len() {
        assert(deletion_in_place(plan, next));
    }
}

/// A run of such a plan does not start with a deletion.
pub proof fn lemma_run_starts_without_deletion(plan: Seq<ActionModel>)
    requires
        deletes_follow_copies(plan),
        plan.len() > 0,
    ensures
        !(plan[0] is RemoveFile),
{
    assert(deletion_in_place(plan, 0));
}

/// A run never goes back, and it is given up only over a failure.
pub proof fn lemma_run_goes_forward(plan: Seq<ActionModel>, done: int, succeeded: bool)
    requires
        0 <= done < plan.len() <= usize::MAX,
    ensures
        step_after(plan, done, succeeded) matches Step::Perform(next) ==> done < next
            < plan.len(),
        succeeded ==> step_after(plan, done, succeeded) != Step::Aborted,
{
}

/// Where a run starts: at the first action, if there is one.
pub fn first_step(plan: &Vec<FsAction>) -> (step: Step)
    ensures
        step == if plan@.len() > 0 {
            Step::Perform(0)
        } else {
            Step::Finished
        },
{
    if plan.len() > 0 {
        Step::Perform(0)
    } else {
        Step::Finished
    }
}

/// How a run goes on once the action at `done` has been tried.
pub fn next_step(plan: &Vec<FsAction>, done: usize, succeeded: bool) -> (step: Step)
    ensures
        step == step_after(plan_of(plan@), done as int, succeeded),
{
    if done >= plan.len() {
        return Step::Finished;
    }
    let mut next: usize = done + 1;
    if !succeeded {
        match &plan[done] {
            FsAction::CreateDirAll { .. } | FsAction::WriteRecord { .. } | FsAction::WriteSummary {
                ..
            } => {
                return Step::Aborted;
            },
            FsAction::CopyFile { .. } => {
                if next < plan.len() {
                    match &plan[next] {
                        FsAction::RemoveFile { .. } => {
                            next = next + 1;
                        },
                        _ => {},
                    }
                }
            },
            FsAction::RemoveFile { .. } => {},
        }
    }
    if next < plan.len() {
        Step::Perform(next)
    } else {
        Step::Finished
    }
}

} // verus!
