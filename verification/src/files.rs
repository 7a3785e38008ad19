//! The file system as the server sees it: how a request path names a place
//! on the host, and what a directory's entries are called in a listing.
//!
//! Reading the disk is the caller's part. It hands over what it found as
//! plain values, and the rules here say what that means.

use crate::html::texts;
use crate::text::{ends_with, to_chars};
use vstd::prelude::*;

verus! {

/// Why a file's contents could not be had.
#[derive(Debug, Clone, Copy, PartialEq, Eq, Structural)]
pub enum FileError {
    /// The file is not there or could not be opened.
    NotFound,
    /// The file was opened, but reading it failed.
    ReadFailed,
}

/// One entry of a directory as the host reports it.
#[derive(Debug)]
pub struct DirectoryEntry {
    /// The host path of the entry: the path the directory was read under,
    /// followed by the entry's own name. `None` where the entry could not be
    /// read or its path is not text.
    pub path: Option<String>,
    /// Whether the entry is a directory itself. `None` where the entry's
    /// metadata cannot be read.
    pub is_dir: Option<bool>,
}

/// A directory entry in contracts.
pub struct EntryModel {
    pub path: Option<Seq<char>>,
    pub is_dir: Option<bool>,
}

impl View for DirectoryEntry {
    type V = EntryModel;

    open spec fn view(&self) -> EntryModel {
        EntryModel {
            path: match self.path {
                Some(path) => Some(path@),
                None => None,
            },
            is_dir: self.is_dir,
        }
    }
}

/// The models of a sequence of entries.
pub open spec fn entry_models(entries: Seq<DirectoryEntry>) -> Seq<EntryModel> {
    entries.map_values(|entry: DirectoryEntry| entry@)
}

/// The host path for a server-relative path: the path below the directory
/// that the server runs in.
pub open spec fn host_path(path: Seq<char>) -> Seq<char> {
    "."@ + path
}

/// What the host path of every entry of a directory begins with: the host
/// path of the directory, closed by a separator where it does not end in
/// one.
pub open spec fn entries_prefix(directory: Seq<char>) -> Seq<char> {
    if ends_with(directory, '/') {
        directory
    } else {
        directory.push('/')
    }
}

/// The entry's own name: what follows the directory and its separator in
/// the entry's path.
pub open spec fn own_name(directory: Seq<char>, path: Seq<char>) -> Seq<char> {
    path.skip(entries_prefix(directory).len() as int)
}

/// The name under which an entry is listed, if it is listed: its own name,
/// relative to the directory, with a `/` after it for a directory. Not
/// listed are an entry without a path, one whose metadata cannot be read,
/// one that does not lie under the directory, and one without a name of its
/// own.
pub open spec fn entry_name(directory: Seq<char>, entry: EntryModel) -> Option<Seq<char>> {
    match (entry.path, entry.is_dir) {
        (Some(path), Some(is_dir)) => {
            if entries_prefix(directory).is_prefix_of(path) && own_name(directory, path).len()
                > 0 {
                if is_dir {
                    Some(own_name(directory, path).push('/'))
                } else {
                    Some(own_name(directory, path))
                }
            } else {
                None
            }
        },
        _ => None,
    }
}

/// The names of the entries that are listed, in the order of the entries.
pub open spec fn listed_names(directory: Seq<char>, entries: Seq<EntryModel>) -> Seq<Seq<char>>
    decreases entries.len(),
{
    if entries.len() == 0 {
        Seq::<Seq<char>>::empty()
    } else {
        let before = listed_names(directory, entries.drop_last());
        match entry_name(directory, entries.last()) {
            Some(name) => before.push(name),
            None => before,
        }
    }
}

/// Whether an entry is sure to be listed: it has a path under the directory
/// with a name of its own, and its metadata can be read.
pub open spec fn is_listed(directory: Seq<char>, entry: EntryModel) -> bool {
    &&& entry.path is Some
    &&& entry.is_dir is Some
    &&& entries_prefix(directory).is_prefix_of(entry.path->Some_0)
    &&& own_name(directory, entry.path->Some_0).len() > 0
}

/// Where every entry lies under the directory, has a name of its own and
/// metadata that can be read, the listing has one name for each entry, in
/// the order of the entries: the entry's own name, followed by `/` for a
/// directory.
pub proof fn lemma_every_entry_listed(directory: Seq<char>, entries: Seq<EntryModel>)
    requires
        forall|k: int| 0 <= k < entries.len() ==> is_listed(directory, #[trigger] entries[k]),
    ensures
        listed_names(directory, entries).len() == entries.len(),
        forall|k: int|
            0 <= k < entries.len() ==> #[trigger] listed_names(directory, entries)[k]
                == entry_name(directory, entries[k])->Some_0,
        forall|k: int|
            0 <= k < entries.len() ==> entry_name(directory, #[trigger] entries[k]) == Some(
                if (entries[k].is_dir->Some_0) {
                    own_name(directory, entries[k].path->Some_0).push('/')
                } else {
                    own_name(directory, entries[k].path->Some_0)
                },
            ),
    decreases entries.len(),
{
    if entries.len() > 0 {
        let before = entries.drop_last();
        assert forall|k: int| 0 <= k < before.len() implies is_listed(
            directory,
            #[trigger] before[k],
        ) by {
            assert(before[k] == entries[k]);
        }
        lemma_every_entry_listed(directory, before);
        assert(entries.last() == entries[entries.len() - 1]);
        assert(is_listed(directory, entries[entries.len() - 1]));
        assert forall|k: int| 0 <= k < entries.len() implies #[trigger] listed_names(
            directory,
            entries,
        )[k] == entry_name(directory, entries[k])->Some_0 by {
            if k < before.len() {
                assert(before[k] == entries[k]);
            }
        }
    }
}

/// An entry without a path, or whose metadata cannot be read, changes
/// nothing in a listing, wherever it stands among the entries.
pub proof fn lemma_unreadable_entry_dropped(
    directory: Seq<char>,
    before: Seq<EntryModel>,
    entry: EntryModel,
    after: Seq<EntryModel>,
)
    requires
        entry.path is None || entry.is_dir is None,
    ensures
        listed_names(directory, before.push(entry) + after) == listed_names(
            directory,
            before + after,
        ),
    decreases after.len(),
{
    if after.len() == 0 {
        assert(before.push(entry) + after =~= before.push(entry));
        assert(before + after =~= before);
        assert(before.push(entry).drop_last() =~= before);
    } else {
        let shorter = after.drop_last();
        lemma_unreadable_entry_dropped(directory, before, entry, shorter);
        assert((before.push(entry) + after).drop_last() =~= before.push(entry) + shorter);
        assert((before + after).drop_last() =~= before + shorter);
        assert((before.push(entry) + after).last() == after.last());
        assert((before + after).last() == after.last());
    }
}

/// The name of an entry is cut after the separator that closes the
/// directory's path, so it is the same whether the directory was named with
/// that separator or without it.
pub proof fn lemma_name_is_relative(directory: Seq<char>, own: Seq<char>, is_dir: bool)
    requires
        own.len() > 0,
    ensures
        entry_name(
            directory,
            EntryModel { path: Some(entries_prefix(directory) + own), is_dir: Some(is_dir) },
        ) == Some(
            if is_dir {
                own.push('/')
            } else {
                own
            },
        ),
        !ends_with(directory, '/') ==> entries_prefix(directory.push('/')) == entries_prefix(
            directory,
        ),
{
    let prefix = entries_prefix(directory);
    let path = prefix + own;
    assert(path.subrange(0, prefix.len() as int) =~= prefix);
    assert(path.skip(prefix.len() as int) =~= own);
}

/// What is reported where a directory cannot be read.
pub const LIST_FAILURE: &'static str = "Could not list files in directory";

/// Maps a server-relative path to the host path that it names.
pub fn path_to_relative(path: String) -> (relative: String)
    ensures
        relative@ == host_path(path@),
{
    let mut relative = String::from_str(".");
    relative.append(path.as_str());
    relative
}

/// Tells whether `text` begins with `prefix`.
fn starts_with(text: &Vec<char>, prefix: &Vec<char>) -> (b: bool)
    ensures
        b == prefix@.is_prefix_of(text@),
{
    if prefix.len() > text.len() {
        return false;
    }
    let mut i: usize = 0;
    while i < prefix.len()
        invariant
            i <= prefix.len() <= text.len(),
            forall|j: int| 0 <= j < i ==> text@[j] == prefix@[j],
        decreases prefix.len() - i,
    {
        if text[i] != prefix[i] {
            proof {
                assert(text@.subrange(0, prefix@.len() as int)[i as int] != prefix@[i as int]);
            }
            return false;
        }
        i += 1;
    }
    proof {
        assert(prefix@ =~= text@.subrange(0, prefix@.len() as int));
    }
    true
}

/// The names to list for the directory `dir`, given its entries as they were
/// read under the host path of `dir`, or `None` where reading the directory
/// failed. The names are relative to the directory, whether `dir` ends in a
/// separator or not.
pub fn list_files(dir: String, entries: Option<Vec<DirectoryEntry>>) -> (files: Result<
    Vec<String>,
    &'static str,
>)
    ensures
        entries is None ==> files is Err && files->Err_0@ == LIST_FAILURE@,
        entries matches Some(read) ==> files is Ok && texts(files->Ok_0@) == listed_names(
            host_path(dir@),
            entry_models(read@),
        ),
{
    let directory = path_to_relative(dir);
    let mut prefix = to_chars(directory.as_str());
    if prefix.len() == 0 || prefix[prefix.len() - 1] != '/' {
        prefix.push('/');
    }
    let entries = match entries {
        Some(entries) => entries,
        None => return Err(LIST_FAILURE),
    };
    let ghost models = entry_models(entries@);
    let mut names: Vec<String> = Vec::new();
    let mut i: usize = 0;
    proof {
        assert(texts(names@) =~= Seq::<Seq<char>>::empty());
    }
    while i < entries.len()
        invariant
            i <= entries.len(),
            models == entry_models(entries@),
            prefix@ == entries_prefix(directory@),
            texts(names@) == listed_names(directory@, models.take(i as int)),
        decreases entries.len() - i,
    {
        let ghost known = texts(names@);
        proof {
            assert(models.take(i + 1).drop_last() =~= models.take(i as int));
            assert(models.take(i + 1).last() == entries@[i as int]@);
        }
        match (&entries[i].path, entries[i].is_dir) {
            (Some(path), Some(is_dir)) => {
                let letters = to_chars(path.as_str());
                if starts_with(&letters, &prefix) && letters.len() > prefix.len() {
                    let own = path.as_str().substring_char(prefix.len(), letters.len());
                    let mut name = String::from_str(own);
                    if is_dir {
                        name.append("/");
                    }
                    proof {
                        reveal_strlit("/");
                        assert(own@ =~= own_name(directory@, path@));
                        assert(own@ + "/"@ =~= own@.push('/'));
                        assert(Some(name@) == entry_name(directory@, entries@[i as int]@));
                    }
                    names.push(name);
                    proof {
                        assert(texts(names@) =~= known.push(name@));
                    }
                }
            },
            _ => {},
        }
        i += 1;
    }
    proof {
        assert(models.take(entries.len() as int) =~= models);
    }
    Ok(names)
}

} // verus!
