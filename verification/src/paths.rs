//! Paths as text.
//!
//! A path is held as a string. Taking one apart and putting one together is
//! left to `std::path`, whose results are given names here; what follows from
//! a file's name alone, its stem and its extension, is computed and proved.
//! `std::path` reads a path by the conventions of the platform the crate is
//! built for; in one build each result depends on the texts handed in and on
//! nothing else.

use vstd::prelude::*;
use vstd::string::*;

verus! {

/// What `std::path::Path::file_name` returns for the path `path`: its last
/// component, unless the path ends in a root or in `..`.
pub uninterp spec fn path_file_name(path: Seq<char>) -> Option<Seq<char>>;

/// What `std::path::Path::parent` returns for the path `path`: the path
/// without its last component, if it has one.
pub uninterp spec fn path_parent(path: Seq<char>) -> Option<Seq<char>>;

/// What `std::path::Path::strip_prefix` returns for the path `path` and the
/// prefix `base`: the rest of `path` below `base`, or nothing where `base` is
/// no prefix of `path`.
pub uninterp spec fn path_strip_prefix(path: Seq<char>, base: Seq<char>) -> Option<Seq<char>>;

/// What `std::path::Path::join` returns for the path `base` and the path
/// `part` that is joined to it.
pub uninterp spec fn path_join(base: Seq<char>, part: Seq<char>) -> Seq<char>;

/// The text of an optional string.
pub open spec fn text_of(value: Option<String>) -> Option<Seq<char>> {
    match value {
        Some(text) => Some(text@),
        None => None,
    }
}

/// Calls `std::path::Path::file_name` on `path`. The contract claims only
/// that the result is the one named [`path_file_name`]; a name taken from a
/// string is itself text, so nothing is lost in handing it back as a string.
#[verifier::external_body]
pub(crate) fn file_name_of(path: &str) -> (name: Option<String>)
    ensures
        text_of(name) == path_file_name(path@),
{
    std::path::Path::new(path).file_name().map(|name| name.to_string_lossy().into_owned())
}

/// Calls `std::path::Path::parent` on `path`. The contract claims only that
/// the result is the one named [`path_parent`].
#[verifier::external_body]
pub(crate) fn parent_of(path: &str) -> (parent: Option<String>)
    ensures
        text_of(parent) == path_parent(path@),
{
    std::path::Path::new(path).parent().map(|parent| parent.to_string_lossy().into_owned())
}

/// Calls `std::path::Path::strip_prefix` on `path` with the prefix `base`.
/// The contract claims only that the result is the one named
/// [`path_strip_prefix`], with nothing in place of the error.
#[verifier::external_body]
pub(crate) fn strip_prefix_of(path: &str, base: &str) -> (rest: Option<String>)
    ensures
        text_of(rest) == path_strip_prefix(path@, base@),
{
    std::path::Path::new(path).strip_prefix(base).ok().map(|rest| rest.to_string_lossy().into_owned())
}

/// Calls `std::path::Path::join` on `base` with `part`. The contract claims
/// only that the result is the one named [`path_join`].
#[verifier::external_body]
pub(crate) fn join_of(base: &str, part: &str) -> (path: String)
    ensures
        path@ == path_join(base@, part@),
{
    std::path::Path::new(base).join(part).to_string_lossy().into_owned()
}

/// The position of the last `.` in `name`, or -1 where it has none.
pub open spec fn last_dot(name: Seq<char>) -> int
    decreases name.len(),
{
    if name.len() == 0 {
        -1
    } else if name.last() == '.' {
        name.len() - 1
    } else {
        last_dot(name.drop_last())
    }
}

/// The stem of a file name: what stands before its last `.`, or the whole
/// name where it has no `.` or only one in front.
pub open spec fn name_stem(name: Seq<char>) -> Seq<char> {
    if last_dot(name) <= 0 {
        name
    } else {
        name.take(last_dot(name))
    }
}

/// The extension of a file name: what stands behind its last `.`, and nothing
/// where the name has no `.` or only one in front.
pub open spec fn name_extension(name: Seq<char>) -> Option<Seq<char>> {
    if last_dot(name) <= 0 {
        None
    } else {
        Some(name.skip(last_dot(name) + 1))
    }
}

/// `last_dot` finds a `.`, and no `.` stands behind the one it finds.
pub proof fn lemma_last_dot(name: Seq<char>)
    ensures
        -1 <= last_dot(name) < name.len(),
        last_dot(name) >= 0 ==> name[last_dot(name)] == '.',
        forall|i: int| last_dot(name) < i < name.len() ==> name[i] != '.',
    decreases name.len(),
{
    if name.len() > 0 && name.last() != '.' {
        lemma_last_dot(name.drop_last());
        assert forall|i: int| last_dot(name) < i < name.len() implies name[i] != '.' by {
            if i < name.len() - 1 {
                assert(name[i] == name.drop_last()[i]);
            }
        }
    }
}

/// Stem, `.` and extension make up the name again, and the extension holds no
/// `.`.
pub proof fn lemma_stem_and_extension(name: Seq<char>)
    requires
        name_extension(name) is Some,
    ensures
        name == name_stem(name) + seq!['.'] + name_extension(name)->0,
        name_stem(name).len() > 0,
        forall|i: int| 0 <= i < name_extension(name)->0.len() ==> name_extension(name)->0[i] != '.',
{
    lemma_last_dot(name);
}

/// Splits a file name at its last `.` into stem and extension. A name without
/// an extension is not split.
pub fn split_name(name: &str) -> (parts: Option<(String, String)>)
    ensures
        parts is Some <==> name_extension(name@) is Some,
        parts matches Some(pair) ==> pair.0@ == name_stem(name@) && Some(pair.1@)
            == name_extension(name@),
{
    let len = name.unicode_len();
    let mut end: usize = len;
    assert(name@.take(len as int) =~= name@);
    while end > 0 && name.get_char(end - 1) != '.'
        invariant
            end <= len,
            len == name@.len(),
            last_dot(name@) == last_dot(name@.take(end as int)),
        decreases end,
    {
        proof {
            let head = name@.take(end as int);
            assert(head.drop_last() =~= name@.take(end - 1));
        }
        end = end - 1;
    }
    if end <= 1 {
        None
    } else {
        let stem = name.substring_char(0, end - 1).to_owned();
        let extension = name.substring_char(end, len).to_owned();
        Some((stem, extension))
    }
}

} // verus!
