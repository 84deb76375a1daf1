//! The configuration of one run.

use vstd::prelude::*;

verus! {

/// How a file is renamed on its way to the destination.
#[derive(Copy, Clone, PartialEq, Eq, Debug, Structural)]
pub enum RenameStyle {
    /// Keep the name.
    Keep,
    /// Fold the name to lower case.
    Lowercase,
    /// Number the files of each group: `0001`, `0002`, ...
    Incremental,
    /// The first eight characters of the content hash.
    ShortHash,
    /// Group and file together; what it yields depends on the [`GroupStyle`].
    Combined,
}

/// How the destination folder of a group is named.
#[derive(Copy, Clone, PartialEq, Eq, Debug, Structural)]
pub enum GroupStyle {
    /// The group key itself.
    ShortHash,
    /// Number the groups in the order they are first seen: `group_0001`, ...
    Incremental,
}

/// The settings of a run.
#[derive(Debug)]
pub struct YeeArgs {
    /// Directory that is scanned.
    pub source_dir: String,
    /// Glob pattern that a file's name has to match.
    pub query: String,
    /// Root of the organized tree.
    pub destination_dir: String,
    /// Compute everything, change nothing on disk.
    pub dry: bool,
    /// Set files with known content apart as duplicates.
    pub track_duplicates: bool,
    /// How files are renamed.
    pub rename_style: RenameStyle,
    /// How group folders are named.
    pub group_style: GroupStyle,
    /// Copy files and leave the sources in place, in place of moving them.
    pub copy_mode: bool,
}

/// What the contracts say of a [`YeeArgs`].
pub struct ArgsModel {
    pub source_dir: Seq<char>,
    pub query: Seq<char>,
    pub destination_dir: Seq<char>,
    pub dry: bool,
    pub track_duplicates: bool,
    pub rename_style: RenameStyle,
    pub group_style: GroupStyle,
    pub copy_mode: bool,
}

impl View for YeeArgs {
    type V = ArgsModel;

    open spec fn view(&self) -> ArgsModel {
        ArgsModel {
            source_dir: self.source_dir@,
            query: self.query@,
            destination_dir: self.destination_dir@,
            dry: self.dry,
            track_duplicates: self.track_duplicates,
            rename_style: self.rename_style,
            group_style: self.group_style,
            copy_mode: self.copy_mode,
        }
    }
}

impl Clone for YeeArgs {
    fn clone(&self) -> (copy: Self)
        ensures
            copy == *self,
    {
        YeeArgs {
            source_dir: self.source_dir.clone(),
            query: self.query.clone(),
            destination_dir: self.destination_dir.clone(),
            dry: self.dry,
            track_duplicates: self.track_duplicates,
            rename_style: self.rename_style,
            group_style: self.group_style,
            copy_mode: self.copy_mode,
        }
    }
}

impl Default for YeeArgs {
    /// Scan `./` for `*`, organize under `./out`, move the files, track
    /// duplicates, name folders by group key and files by short hash.
    fn default() -> (args: Self)
        ensures
            args@.source_dir == "./"@,
            args@.query == "*"@,
            args@.destination_dir == "./out"@,
            !args@.dry,
            args@.track_duplicates,
            args@.rename_style == RenameStyle::ShortHash,
            args@.group_style == GroupStyle::ShortHash,
            !args@.copy_mode,
    {
        YeeArgs {
            source_dir: "./".to_owned(),
            query: "*".to_owned(),
            destination_dir: "./out".to_owned(),
            dry: false,
            track_duplicates: true,
            rename_style: RenameStyle::ShortHash,
            group_style: GroupStyle::ShortHash,
            copy_mode: false,
        }
    }
}

} // verus!
