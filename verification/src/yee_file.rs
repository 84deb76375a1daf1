//! The record of one file, as it passes through the stages.

use vstd::prelude::*;
use vstd::string::*;
use crate::paths::{
    file_name_of, name_extension, name_stem, parent_of, path_file_name, path_parent,
    path_strip_prefix, split_name, strip_prefix_of,
};
use crate::text::joined;

verus! {

/// One file on its way from the source tree to the destination tree.
#[derive(Debug, PartialEq, Eq)]
pub struct YeeFile {
    /// Name without extension and without directory.
    pub filename: String,
    /// Extension, without the dot in front.
    pub extension: String,
    /// Name of the source file, without extension, as discovery found it.
    /// Renaming changes `filename` and leaves this.
    pub source_filename: String,
    /// Directory that holds the source file.
    pub source_full_path: String,
    /// Directory the file goes to; empty until the paths are derived.
    pub destination_full_path: String,
    /// The source directory below the root of the scan.
    pub source_local_path: String,
    /// The destination directory below the destination root; empty until the
    /// paths are derived.
    pub destination_local_path: String,
    /// Content hash, sixteen hexadecimal digits, where the file could be read.
    pub hash: Option<String>,
    /// The group the file belongs to: the name of the folder it was found in.
    pub group_id: String,
}

/// What the contracts say of a [`YeeFile`].
pub struct FileModel {
    pub filename: Seq<char>,
    pub extension: Seq<char>,
    pub source_filename: Seq<char>,
    pub source_full_path: Seq<char>,
    pub destination_full_path: Seq<char>,
    pub source_local_path: Seq<char>,
    pub destination_local_path: Seq<char>,
    pub hash: Option<Seq<char>>,
    pub group_id: Seq<char>,
}

impl View for YeeFile {
    type V = FileModel;

    open spec fn view(&self) -> FileModel {
        FileModel {
            filename: self.filename@,
            extension: self.extension@,
            source_filename: self.source_filename@,
            source_full_path: self.source_full_path@,
            destination_full_path: self.destination_full_path@,
            source_local_path: self.source_local_path@,
            destination_local_path: self.destination_local_path@,
            hash: match self.hash {
                Some(hash) => Some(hash@),
                None => None,
            },
            group_id: self.group_id@,
        }
    }
}

impl Clone for YeeFile {
    fn clone(&self) -> (copy: Self)
        ensures
            copy == *self,
    {
        YeeFile {
            filename: self.filename.clone(),
            extension: self.extension.clone(),
            source_filename: self.source_filename.clone(),
            source_full_path: self.source_full_path.clone(),
            destination_full_path: self.destination_full_path.clone(),
            source_local_path: self.source_local_path.clone(),
            destination_local_path: self.destination_local_path.clone(),
            hash: match &self.hash {
                Some(hash) => Some(hash.clone()),
                None => None,
            },
            group_id: self.group_id.clone(),
        }
    }
}

/// The views of a list of records.
pub open spec fn models(files: Seq<YeeFile>) -> Seq<FileModel> {
    files.map_values(|file: YeeFile| file@)
}

/// The group of a file found in the directory `directory`: the directory's own
/// name, or `unknown` where it has none.
pub open spec fn group_of(directory: Seq<char>) -> Seq<char> {
    match path_file_name(directory) {
        Some(name) => name,
        None => "unknown"@,
    }
}

/// The record of the file at `file_path`, found by a scan below `root_path`.
/// There is none where the path has no file name, the name has no extension,
/// the path has no parent, or the path does not lie below the root.
pub open spec fn classified(root_path: Seq<char>, file_path: Seq<char>) -> Option<FileModel> {
    match (path_file_name(file_path), path_parent(file_path), path_strip_prefix(file_path, root_path)) {
        (Some(name), Some(directory), Some(below_root)) => match name_extension(name) {
            Some(extension) => Some(
                FileModel {
                    filename: name_stem(name),
                    extension: extension,
                    source_filename: name_stem(name),
                    source_full_path: directory,
                    destination_full_path: Seq::empty(),
                    source_local_path: match path_parent(below_root) {
                        Some(local) => local,
                        None => Seq::empty(),
                    },
                    destination_local_path: Seq::empty(),
                    hash: None,
                    group_id: group_of(directory),
                },
            ),
            None => None,
        },
        _ => None,
    }
}

/// `{name}.{extension}` of a record.
pub open spec fn full_name(file: FileModel) -> Seq<char> {
    file.filename + seq!['.'] + file.extension
}

/// `{directory}/{name}.{extension}`.
pub open spec fn path_in(directory: Seq<char>, file: FileModel) -> Seq<char> {
    directory + seq!['/'] + full_name(file)
}

/// Where `file` was found: `{source directory}/{found name}.{extension}`.
/// Renaming has no part in it.
pub open spec fn source_of(file: FileModel) -> Seq<char> {
    file.source_full_path + seq!['/'] + file.source_filename + seq!['.'] + file.extension
}

/// Two files found in the same directory belong to the same group and have
/// the same source directory, whatever their names and whatever the scans
/// that found them.
pub proof fn lemma_same_directory_same_group(
    first_root: Seq<char>,
    first_path: Seq<char>,
    second_root: Seq<char>,
    second_path: Seq<char>,
)
    requires
        classified(first_root, first_path) is Some,
        classified(second_root, second_path) is Some,
        path_parent(first_path) == path_parent(second_path),
    ensures
        classified(first_root, first_path)->0.group_id == classified(
            second_root,
            second_path,
        )->0.group_id,
        classified(first_root, first_path)->0.source_full_path == classified(
            second_root,
            second_path,
        )->0.source_full_path,
{
}

/// The group of a record is decided by the directory it was found in, and by
/// nothing else.
pub proof fn lemma_group_follows_directory(root_path: Seq<char>, file_path: Seq<char>)
    requires
        classified(root_path, file_path) is Some,
    ensures
        classified(root_path, file_path)->0.group_id == group_of(
            classified(root_path, file_path)->0.source_full_path,
        ),
        Some(classified(root_path, file_path)->0.source_full_path) == path_parent(file_path),
        classified(root_path, file_path)->0.source_filename == classified(
            root_path,
            file_path,
        )->0.filename,
{
}

impl YeeFile {
    /// Derives the record of the file at `file_path`, found below `root_path`.
    pub fn from_path(root_path: &str, file_path: &str) -> (file: Option<YeeFile>)
        ensures
            file is Some <==> classified(root_path@, file_path@) is Some,
            file matches Some(record) ==> Some(record@) == classified(root_path@, file_path@),
    {
        let name = match file_name_of(file_path) {
            Some(name) => name,
            None => {
                return None;
            },
        };
        let (stem, extension) = match split_name(name.as_str()) {
            Some(parts) => parts,
            None => {
                return None;
            },
        };
        let directory = match parent_of(file_path) {
            Some(directory) => directory,
            None => {
                return None;
            },
        };
        let below_root = match strip_prefix_of(file_path, root_path) {
            Some(below_root) => below_root,
            None => {
                return None;
            },
        };
        let local = match parent_of(below_root.as_str()) {
            Some(local) => local,
            None => String::new(),
        };
        let group = match file_name_of(directory.as_str()) {
            Some(folder) => folder,
            None => "unknown".to_owned(),
        };
        Some(
            YeeFile {
                filename: stem.clone(),
                extension: extension,
                source_filename: stem,
                source_full_path: directory,
                destination_full_path: String::new(),
                source_local_path: local,
                destination_local_path: String::new(),
                hash: None,
                group_id: group,
            },
        )
    }

    /// `{name}.{extension}`.
    pub fn full_name(&self) -> (name: String)
        ensures
            name@ == full_name(self@),
    {
        let name = joined(self.filename.as_str(), ".");
        proof {
            reveal_strlit(".");
        }
        joined(name.as_str(), self.extension.as_str())
    }

    /// Where the file is read from: its source directory, `/`, and its name
    /// as it was found.
    pub fn source_path(&self) -> (path: String)
        ensures
            path@ == source_of(self@),
    {
        proof {
            reveal_strlit("/");
            reveal_strlit(".");
        }
        let directory = joined(self.source_full_path.as_str(), "/");
        let stem = joined(directory.as_str(), self.source_filename.as_str());
        let dotted = joined(stem.as_str(), ".");
        let path = joined(dotted.as_str(), self.extension.as_str());
        assert(path@ =~= source_of(self@));
        path
    }

    /// Where the file is to stand: its destination directory, `/`, and its
    /// name.
    pub fn destination_path(&self) -> (path: String)
        ensures
            path@ == path_in(self@.destination_full_path, self@),
    {
        let name = self.full_name();
        let directory = joined(self.destination_full_path.as_str(), "/");
        proof {
            reveal_strlit("/");
        }
        let path = joined(directory.as_str(), name.as_str());
        path
    }
}

} // verus!
