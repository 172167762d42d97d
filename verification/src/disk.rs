//! What the files hold, and what a step does to them.

use vstd::prelude::*;

use crate::paths::{FilePath, Folder, Place};

verus! {

/// The files: the text that each place holds. Two places are two files here. On a real
/// disk they may be one, where a name leads out of its folder or the system does not tell
/// two names apart.
pub type Disk = Map<Place, Seq<char>>;

/// One change to the files.
pub enum FileStep {
    /// Writes a file with its whole content, over what is there.
    Write { path: FilePath, body: String },
    /// Waits until what was written to a file is on the disk.
    Sync { path: FilePath },
    /// Gives a file another path, in place of the file that is there.
    Rename { from: FilePath, to: FilePath },
    /// Removes a file if it is there.
    Remove { path: FilePath },
}

/// The files after one step.
pub open spec fn step_effect(disk: Disk, step: FileStep) -> Disk {
    match step {
        FileStep::Write { path, body } => disk.insert(path@, body@),
        FileStep::Sync { .. } => disk,
        FileStep::Rename { from, to } => if disk.contains_key(from@) {
            disk.remove(from@).insert(to@, disk[from@])
        } else {
            disk
        },
        FileStep::Remove { path } => disk.remove(path@),
    }
}

/// Whether a step can be done: only a file that is there is synced or renamed.
pub open spec fn can_run(disk: Disk, step: FileStep) -> bool {
    match step {
        FileStep::Sync { path } => disk.contains_key(path@),
        FileStep::Rename { from, .. } => disk.contains_key(from@),
        FileStep::Write { .. } | FileStep::Remove { .. } => true,
    }
}

/// Whether a step that was broken off may leave the files so. A file that was being
/// written may hold anything, or be gone; every other step is done or not done.
pub open spec fn cut_short(disk: Disk, step: FileStep, after: Disk) -> bool {
    match step {
        FileStep::Write { path, .. } => after.remove(path@) == disk.remove(path@),
        _ => after == disk || after == step_effect(disk, step),
    }
}

/// The files after a sequence of steps.
pub open spec fn run_steps(disk: Disk, steps: Seq<FileStep>) -> Disk
    decreases steps.len(),
{
    if steps.len() == 0 {
        disk
    } else {
        step_effect(run_steps(disk, steps.drop_last()), steps.last())
    }
}

/// The text at a place, where there is a file.
pub open spec fn content(disk: Disk, place: Place) -> Option<Seq<char>> {
    if disk.contains_key(place) {
        Some(disk[place])
    } else {
        None
    }
}

/// An entry of a directory: its name, and the path by which the system finds it.
pub struct DirEntry<P> {
    pub name: String,
    pub path: P,
}

/// Whether a listing names the files of a folder, each once and no other. An entry that
/// could not be read is `None`. No listing of a folder names a file that lies elsewhere, so
/// this says too that each file of the folder lies in it.
pub open spec fn lists_dir<P>(
    disk: Disk,
    folder: Folder,
    listing: Seq<Option<DirEntry<P>>>,
) -> bool {
    &&& forall|i: int|
        #![trigger listing[i]]
        0 <= i < listing.len() && listing[i] is Some ==> disk.contains_key(
            Place { folder, name: listing[i]->0.name@ },
        )
    &&& forall|i: int, j: int|
        #![trigger listing[i], listing[j]]
        0 <= i < j < listing.len() && listing[i] is Some && listing[j] is Some
            ==> listing[i]->0.name@ != listing[j]->0.name@
    &&& forall|name: Seq<char>| #[trigger]
        disk.contains_key(Place { folder, name }) ==> exists|i: int|
            0 <= i < listing.len() && (#[trigger] listing[i]) is Some && listing[i]->0.name@
                == name
}

/// Where the new content of a file is gathered before it takes the file's place.
pub open spec fn scratch(place: Place) -> Place {
    Place { folder: place.folder, name: place.name + ".tmp"@ }
}

/// Whether, of the file at `place`, the old content or the new one is there, whole, and
/// every other file but the scratch file is as it was.
pub open spec fn old_or_new(before: Disk, after: Disk, place: Place, body: Seq<char>) -> bool {
    &&& content(after, place) == content(before, place) || content(after, place) == Some(body)
    &&& forall|other: Place|
        other != place && other != scratch(place) ==> #[trigger] content(after, other) == content(
            before,
            other,
        )
}

/// The steps that give a file a new content in one go: whenever they are broken off,
/// between two steps or in the middle of one, the file holds its old content or the new
/// one, whole. Each step finds the file that it needs, and what is renamed was synced
/// right before.
pub fn replace(path: &FilePath, body: &str) -> (steps: Vec<FileStep>)
    ensures
        forall|disk: Disk| #[trigger]
            run_steps(disk, steps@) == disk.remove(scratch(path@)).insert(path@, body@),
        forall|disk: Disk, n: int|
            0 <= n <= steps.len() ==> old_or_new(
                disk,
                #[trigger] run_steps(disk, steps@.take(n)),
                path@,
                body@,
            ),
        forall|disk: Disk, n: int, after: Disk|
            0 <= n < steps.len() && #[trigger] cut_short(
                run_steps(disk, steps@.take(n)),
                steps@[n],
                after,
            ) ==> old_or_new(disk, after, path@, body@),
        forall|disk: Disk, n: int|
            0 <= n < steps.len() ==> #[trigger] can_run(
                run_steps(disk, steps@.take(n)),
                steps@[n],
            ),
        forall|n: int|
            0 <= n < steps.len() && (#[trigger] steps@[n]) is Rename ==> n > 0 && (steps@[n - 1]
                matches FileStep::Sync { path: p } && p@ == steps@[n]->from@),
{
    let mut name = path.name.clone();
    name.append(".tmp");
    let tmp = FilePath { folder: path.folder, name: name.clone() };
    proof {
        reveal_strlit(".tmp");
        assert(tmp@.name.len() == path@.name.len() + 4);
        assert(tmp@ != path@);
        assert(tmp@ == scratch(path@));
    }
    let write = FileStep::Write {
        path: FilePath { folder: path.folder, name: name.clone() },
        body: body.to_owned(),
    };
    let sync = FileStep::Sync { path: FilePath { folder: path.folder, name } };
    let rename = FileStep::Rename {
        from: tmp,
        to: FilePath { folder: path.folder, name: path.name.clone() },
    };
    let steps = vec![write, sync, rename];
    assert forall|disk: Disk| #[trigger]
        run_steps(disk, steps@) == disk.remove(scratch(path@)).insert(path@, body@) by {
        lemma_three_steps(disk, steps@);
        let written = disk.insert(tmp@, body@);
        assert(written.remove(tmp@).insert(path@, body@) =~= disk.remove(tmp@).insert(
            path@,
            body@,
        ));
    }
    assert forall|disk: Disk, n: int| 0 <= n <= steps.len() implies old_or_new(
        disk,
        #[trigger] run_steps(disk, steps@.take(n)),
        path@,
        body@,
    ) by {
        lemma_three_steps(disk, steps@);
    }
    assert forall|disk: Disk, n: int, after: Disk|
        0 <= n < steps.len() && #[trigger] cut_short(
            run_steps(disk, steps@.take(n)),
            steps@[n],
            after,
        ) implies old_or_new(disk, after, path@, body@) by {
        lemma_three_steps(disk, steps@);
        if n == 0 {
            assert forall|other: Place| other != tmp@ implies #[trigger] content(after, other)
                == content(disk, other) by {
                assert(content(after.remove(tmp@), other) == content(disk.remove(tmp@), other));
            }
        }
    }
    assert forall|disk: Disk, n: int| 0 <= n < steps.len() implies #[trigger] can_run(
        run_steps(disk, steps@.take(n)),
        steps@[n],
    ) by {
        lemma_three_steps(disk, steps@);
    }
    steps
}

/// Three steps, and each of their beginnings, one by one.
proof fn lemma_three_steps(disk: Disk, steps: Seq<FileStep>)
    requires
        steps.len() == 3,
    ensures
        run_steps(disk, steps.take(0)) == disk,
        run_steps(disk, steps.take(1)) == step_effect(disk, steps[0]),
        run_steps(disk, steps.take(2)) == step_effect(step_effect(disk, steps[0]), steps[1]),
        run_steps(disk, steps.take(3)) == step_effect(
            step_effect(step_effect(disk, steps[0]), steps[1]),
            steps[2],
        ),
        steps.take(3) == steps,
{
    reveal_with_fuel(run_steps, 4);
    assert(steps.take(1).drop_last() =~= steps.take(0));
    assert(steps.take(2).drop_last() =~= steps.take(1));
    assert(steps.take(3).drop_last() =~= steps.take(2));
    assert(steps.take(3) =~= steps);
}

} // verus!
