//! The files backend: `<data>/chats/<id>.json` for a chat, `<data>/runs/<id>.json` for a
//! flow run, and `<data>/<name>.json` for a document.

use vstd::prelude::*;

use crate::backend::Area;
use crate::disk::{
    can_run, cut_short, lists_dir, old_or_new, replace, run_steps, scratch, step_effect, DirEntry,
    Disk, FileStep,
};
use crate::paths::{has_json_extension, is_json_name, json_file, json_place, Folder, Place};
use crate::rows::{Loaded, StoreError, Warning};

verus! {

/// What came of reading and decoding one file.
pub enum FileRead<T> {
    /// The text was well formed.
    Parsed(T),
    /// The file could be read, its text was malformed.
    Malformed { path: String, error: String },
    /// The file could not be read.
    Unreadable { path: String, error: String },
}

/// The files in which `id` has `body` in a folder, and every other file is as before.
pub open spec fn with_json_file(
    disk: Disk,
    folder: Folder,
    id: Seq<char>,
    body: Seq<char>,
) -> Disk {
    disk.insert(json_place(folder, id), body)
}

/// The files in which `id` has none in a folder, and every other file is as before.
pub open spec fn without_json_file(disk: Disk, folder: Folder, id: Seq<char>) -> Disk {
    disk.remove(json_place(folder, id))
}

/// The step that writes the full transcript for `id` over any copy that is there. A chat
/// that could not be encoded is not saved.
pub fn save(id: &str, encoded: Result<String, String>) -> (result: Result<FileStep, Warning>)
    ensures
        match encoded {
            Ok(body) => result matches Ok(step) && (forall|disk: Disk| #[trigger]
                step_effect(disk, step) == with_json_file(disk, Folder::Chats, id@, body@)),
            Err(error) => result matches Err(Warning::Encode { area, id: i, error: e }) && area
                == Area::Chats && i@ == id@ && e == error,
        },
{
    match encoded {
        Ok(body) => Ok(FileStep::Write { path: json_file(Folder::Chats, id), body }),
        Err(error) => Err(Warning::Encode { area: Area::Chats, id: id.to_owned(), error }),
    }
}

/// The step that writes a flow run under `id` over any copy that is there. A run that
/// could not be encoded is not saved.
pub fn save_run<E>(id: &str, encoded: Result<String, E>) -> (result: Result<
    FileStep,
    StoreError<E>,
>)
    ensures
        match encoded {
            Ok(body) => result matches Ok(step) && (forall|disk: Disk| #[trigger]
                step_effect(disk, step) == with_json_file(disk, Folder::Runs, id@, body@)),
            Err(error) => result == Err::<FileStep, StoreError<E>>(StoreError::Encode(error)),
        },
{
    match encoded {
        Ok(body) => Ok(FileStep::Write { path: json_file(Folder::Runs, id), body }),
        Err(error) => Err(StoreError::Encode(error)),
    }
}

/// The steps that store `body` as the document `name`, in one go: whenever they are broken
/// off, between two steps or in the middle of one, the document is the old one or the new
/// one, whole. Each step finds the file that it needs, and what is renamed was synced right
/// before.
pub fn put_doc(name: &str, body: &str) -> (steps: Vec<FileStep>)
    ensures
        forall|disk: Disk| #[trigger]
            run_steps(disk, steps@) == with_json_file(
                disk.remove(scratch(json_place(Folder::Data, name@))),
                Folder::Data,
                name@,
                body@,
            ),
        forall|disk: Disk, n: int|
            0 <= n <= steps.len() ==> old_or_new(
                disk,
                #[trigger] run_steps(disk, steps@.take(n)),
                json_place(Folder::Data, name@),
                body@,
            ),
        forall|disk: Disk, n: int, after: Disk|
            0 <= n < steps.len() && #[trigger] cut_short(
                run_steps(disk, steps@.take(n)),
                steps@[n],
                after,
            ) ==> old_or_new(disk, after, json_place(Folder::Data, name@), body@),
        forall|disk: Disk, n: int|
            0 <= n < steps.len() ==> #[trigger] can_run(
                run_steps(disk, steps@.take(n)),
                steps@[n],
            ),
        forall|n: int|
            0 <= n < steps.len() && (#[trigger] steps@[n]) is Rename ==> n > 0 && (steps@[n - 1]
                matches FileStep::Sync { path } && path@ == steps@[n]->from@),
{
    replace(&json_file(Folder::Data, name), body)
}

/// A directory entry, where it is to be read.
pub open spec fn json_entry_of<P>(entry: Option<DirEntry<P>>) -> Option<DirEntry<P>> {
    match entry {
        Some(e) if is_json_name(e.name@) => Some(e),
        _ => None,
    }
}

/// The entries that are to be read, in the order of the listing.
pub open spec fn json_entries_of<P>(listing: Seq<Option<DirEntry<P>>>) -> Seq<DirEntry<P>> {
    listing.filter_map(|entry: Option<DirEntry<P>>| json_entry_of(entry))
}

/// The entries of a directory that are to be read: those with the extension `json`. An
/// entry that could not be read, `None` in the listing, is passed over.
pub fn json_entries<P>(listing: Vec<Option<DirEntry<P>>>) -> (entries: Vec<DirEntry<P>>)
    ensures
        entries@ == json_entries_of(listing@),
{
    let ghost all = listing@;
    let mut entries: Vec<DirEntry<P>> = Vec::new();
    for entry in iter: listing
        invariant
            iter.seq() == all,
            entries@ == json_entries_of(all.take(iter.index())),
    {
        proof {
            let done = all.take(iter.index() + 1);
            assert(done.drop_last() =~= all.take(iter.index()));
            assert(done.last() == entry);
        }
        match entry {
            Some(e) => {
                if has_json_extension(e.name.as_str()) {
                    entries.push(e);
                }
            },
            None => {},
        }
    }
    assert(all.take(all.len() as int) =~= all);
    entries
}

impl<T> FileRead<T> {
    /// The value of a file, where it has one.
    pub open spec fn item(self) -> Option<T> {
        match self {
            FileRead::Parsed(value) => Some(value),
            _ => None,
        }
    }

    /// What is said of a file that is left out.
    pub open spec fn warning(self, area: Area) -> Option<Warning> {
        match self {
            FileRead::Parsed(_) => None,
            FileRead::Malformed { path, error } => Some(Warning::ParseFile { area, path, error }),
            FileRead::Unreadable { path, error } => Some(Warning::ReadFile { area, path, error }),
        }
    }
}

/// The values of the files that have one, in the order of the files.
pub open spec fn parsed_of<T>(files: Seq<FileRead<T>>) -> Seq<T> {
    files.filter_map(|f: FileRead<T>| f.item())
}

/// What is said of the files that are left out, in the order of the files.
pub open spec fn complaints_of<T>(files: Seq<FileRead<T>>, area: Area) -> Seq<Warning> {
    files.filter_map(|f: FileRead<T>| f.warning(area))
}

/// Whether `reads` are the JSON files of a folder as they were read and decoded: `reads[k]`
/// has what `decode` makes of the file that is the entry `k` of those to be read.
pub open spec fn fetches_files<P, T>(
    disk: Disk,
    folder: Folder,
    decode: spec_fn(Seq<char>) -> Option<T>,
    listing: Seq<Option<DirEntry<P>>>,
    reads: Seq<FileRead<T>>,
) -> bool {
    &&& lists_dir(disk, folder, listing)
    &&& reads.len() == json_entries_of(listing).len()
    &&& forall|k: int|
        #![trigger reads[k]]
        #![trigger json_entries_of(listing)[k]]
        0 <= k < reads.len() ==> reads[k].item() == decode(
            disk[Place { folder, name: json_entries_of(listing)[k].name@ }],
        )
}

/// Every value that could be read and decoded, in the order of the files. A malformed
/// one is left out with a warning. `None` stands for a directory that could not be
/// listed, and gives no value.
pub fn load_all<T>(area: Area, reads: Option<Vec<FileRead<T>>>) -> (loaded: Loaded<T>)
    ensures
        match reads {
            None => loaded.items.len() == 0 && loaded.warnings.len() == 0,
            Some(files) => loaded.items@ == parsed_of(files@) && loaded.warnings@
                == complaints_of(files@, area),
        },
{
    let mut items: Vec<T> = Vec::new();
    let mut warnings: Vec<Warning> = Vec::new();
    if let Some(files) = reads {
        let ghost all = files@;
        for file in iter: files
            invariant
                iter.seq() == all,
                items@ == parsed_of(all.take(iter.index())),
                warnings@ == complaints_of(all.take(iter.index()), area),
        {
            proof {
                let done = all.take(iter.index() + 1);
                assert(done.drop_last() =~= all.take(iter.index()));
                assert(done.last() == file);
            }
            match file {
                FileRead::Parsed(value) => items.push(value),
                FileRead::Malformed { path, error } => warnings.push(
                    Warning::ParseFile { area, path, error },
                ),
                FileRead::Unreadable { path, error } => warnings.push(
                    Warning::ReadFile { area, path, error },
                ),
            }
        }
        assert(all.take(all.len() as int) =~= all);
    }
    Loaded { items, warnings }
}

/// The step that removes the transcript for `id` if it is there.
pub fn delete(id: &str) -> (step: FileStep)
    ensures
        forall|disk: Disk| #[trigger]
            step_effect(disk, step) == without_json_file(disk, Folder::Chats, id@),
{
    FileStep::Remove { path: json_file(Folder::Chats, id) }
}

/// What is said of a removal once it has been tried.
pub fn deleted(path: String, outcome: Result<(), String>) -> (warning: Option<Warning>)
    ensures
        warning == match outcome {
            Ok(_) => None,
            Err(error) => Some(Warning::DeleteFile { area: Area::Chats, path, error }),
        },
{
    match outcome {
        Ok(_) => None,
        Err(error) => Some(Warning::DeleteFile { area: Area::Chats, path, error }),
    }
}

} // verus!
