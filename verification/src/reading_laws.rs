//! What is kept of what was read: rows, files and the members of an object.

use vstd::prelude::*;

use crate::backend::Area;
use crate::chats::first_failure;
use crate::disk::DirEntry;
use crate::files::{complaints_of, json_entries_of, json_entry_of, parsed_of, FileRead};
use crate::json::{members_but, members_map, texts, Member};
use crate::rows::{items_of, warnings_of, Fetched, Warning};

verus! {

/// What is kept of two sequences, one after the other, is what is kept of each.
proof fn lemma_kept_of_both<A, B>(first: Seq<A>, second: Seq<A>, f: spec_fn(A) -> Option<B>)
    ensures
        (first + second).filter_map(f) == first.filter_map(f) + second.filter_map(f),
    decreases second.len(),
{
    if second.len() == 0 {
        assert(first + second =~= first);
        assert(first.filter_map(f) + second.filter_map(f) =~= first.filter_map(f));
    } else {
        let init = second.drop_last();
        lemma_kept_of_both(first, init, f);
        assert((first + second).drop_last() =~= first + init);
        assert((first + second).last() == second.last());
        assert((first + second).filter_map(f) =~= first.filter_map(f) + second.filter_map(f));
    }
}

/// A single element gives its value, where it has one.
proof fn lemma_kept_of_one<A, B>(a: A, f: spec_fn(A) -> Option<B>)
    ensures
        seq![a].filter_map(f) == match f(a) {
            Some(value) => seq![value],
            None => Seq::empty(),
        },
{
    assert(seq![a].drop_last() =~= Seq::empty());
    assert(Seq::<A>::empty().filter_map(f) =~= Seq::empty());
    assert(seq![a].last() == a);
    assert(seq![a].filter_map(f) =~= match f(a) {
        Some(value) => seq![value],
        None => Seq::empty(),
    });
}

/// Rows are taken one by one, in order, however many there are: one more row that was
/// decoded adds its value at the end, one that was malformed adds a warning with its id and
/// error, and one that could not be read adds a warning with its error.
pub proof fn law_rows_are_taken_one_by_one<T>(
    rows: Seq<Fetched<T>>,
    more: Seq<Fetched<T>>,
    row: Fetched<T>,
    area: Area,
)
    ensures
        items_of(rows + more) == items_of(rows) + items_of(more),
        warnings_of(rows + more, area) == warnings_of(rows, area) + warnings_of(more, area),
        items_of(rows.push(row)) == match row {
            Fetched::Decoded(value) => items_of(rows).push(value),
            _ => items_of(rows),
        },
        warnings_of(rows.push(row), area) == match row {
            Fetched::Decoded(_) => warnings_of(rows, area),
            Fetched::Malformed { id, error } => warnings_of(rows, area).push(
                Warning::Parse { area, id, error },
            ),
            Fetched::Failed { error } => warnings_of(rows, area).push(
                Warning::Row { area, error },
            ),
        },
        items_of(Seq::<Fetched<T>>::empty()).len() == 0,
        warnings_of(Seq::<Fetched<T>>::empty(), area).len() == 0,
{
    let item = |r: Fetched<T>| r.item();
    let warning = |r: Fetched<T>| r.warning(area);
    lemma_kept_of_both(rows, more, item);
    lemma_kept_of_both(rows, more, warning);
    lemma_kept_of_both(rows, seq![row], item);
    lemma_kept_of_both(rows, seq![row], warning);
    lemma_kept_of_one(row, item);
    lemma_kept_of_one(row, warning);
    assert(rows + seq![row] =~= rows.push(row));
    assert(items_of(rows.push(row)) =~= match row {
        Fetched::Decoded(value) => items_of(rows).push(value),
        _ => items_of(rows),
    });
    assert(warnings_of(rows.push(row), area) =~= match row {
        Fetched::Decoded(_) => warnings_of(rows, area),
        Fetched::Malformed { id, error } => warnings_of(rows, area).push(
            Warning::Parse { area, id, error },
        ),
        Fetched::Failed { error } => warnings_of(rows, area).push(Warning::Row { area, error }),
    });
}

/// Files are taken one by one, in order, however many there are: one more file that was
/// decoded adds its value at the end, one that was malformed or could not be read adds a
/// warning of its own kind with its path and error.
pub proof fn law_files_are_taken_one_by_one<T>(
    files: Seq<FileRead<T>>,
    more: Seq<FileRead<T>>,
    file: FileRead<T>,
    area: Area,
)
    ensures
        parsed_of(files + more) == parsed_of(files) + parsed_of(more),
        complaints_of(files + more, area) == complaints_of(files, area) + complaints_of(
            more,
            area,
        ),
        parsed_of(files.push(file)) == match file {
            FileRead::Parsed(value) => parsed_of(files).push(value),
            _ => parsed_of(files),
        },
        complaints_of(files.push(file), area) == match file {
            FileRead::Parsed(_) => complaints_of(files, area),
            FileRead::Malformed { path, error } => complaints_of(files, area).push(
                Warning::ParseFile { area, path, error },
            ),
            FileRead::Unreadable { path, error } => complaints_of(files, area).push(
                Warning::ReadFile { area, path, error },
            ),
        },
        parsed_of(Seq::<FileRead<T>>::empty()).len() == 0,
        complaints_of(Seq::<FileRead<T>>::empty(), area).len() == 0,
{
    let item = |f: FileRead<T>| f.item();
    let warning = |f: FileRead<T>| f.warning(area);
    lemma_kept_of_both(files, more, item);
    lemma_kept_of_both(files, more, warning);
    lemma_kept_of_both(files, seq![file], item);
    lemma_kept_of_both(files, seq![file], warning);
    lemma_kept_of_one(file, item);
    lemma_kept_of_one(file, warning);
    assert(files + seq![file] =~= files.push(file));
    assert(parsed_of(files.push(file)) =~= match file {
        FileRead::Parsed(value) => parsed_of(files).push(value),
        _ => parsed_of(files),
    });
    assert(complaints_of(files.push(file), area) =~= match file {
        FileRead::Parsed(_) => complaints_of(files, area),
        FileRead::Malformed { path, error } => complaints_of(files, area).push(
            Warning::ParseFile { area, path, error },
        ),
        FileRead::Unreadable { path, error } => complaints_of(files, area).push(
            Warning::ReadFile { area, path, error },
        ),
    });
}

/// The entries of a directory are taken one by one, in order, however many there are: one
/// more entry is to be read where its name is longer than the extension and ends in it.
pub proof fn law_entries_are_taken_one_by_one<P>(
    listing: Seq<Option<DirEntry<P>>>,
    more: Seq<Option<DirEntry<P>>>,
    entry: Option<DirEntry<P>>,
)
    ensures
        json_entries_of(listing + more) == json_entries_of(listing) + json_entries_of(more),
        json_entries_of(listing.push(entry)) == (if entry is Some && entry.unwrap().name@.len()
            > 5 && ".json"@.is_suffix_of(entry.unwrap().name@) {
            json_entries_of(listing).push(entry.unwrap())
        } else {
            json_entries_of(listing)
        }),
        json_entries_of(Seq::<Option<DirEntry<P>>>::empty()).len() == 0,
{
    let kept = |e: Option<DirEntry<P>>| json_entry_of(e);
    lemma_kept_of_both(listing, more, kept);
    lemma_kept_of_both(listing, seq![entry], kept);
    lemma_kept_of_one(entry, kept);
    assert(listing + seq![entry] =~= listing.push(entry));
    reveal_strlit(".json");
    if let Some(e) = entry {
        let name = e.name@;
        if name.len() > 5 {
            assert(name.skip(name.len() - 5) =~= name.subrange(name.len() - 5, name.len() as int));
        }
        assert(json_entries_of(seq![entry]) =~= if name.len() > 5 && ".json"@.is_suffix_of(name) {
            seq![e]
        } else {
            Seq::empty()
        });
    }
    assert(json_entries_of(listing.push(entry)) =~= json_entries_of(listing) + json_entries_of(
        seq![entry],
    ));
}

/// The first row that could not be read is that before which all could: it is found
/// wherever it stands, and none is found only where all rows could be read.
pub proof fn law_first_failure_is_the_first(rows: Seq<Result<String, String>>)
    ensures
        match first_failure(rows) {
            None => forall|i: int| 0 <= i < rows.len() ==> (#[trigger] rows[i]) is Ok,
            Some(error) => exists|k: int|
                0 <= k < rows.len() && (#[trigger] rows[k]) == Err::<String, String>(error) && (
                forall|i: int| 0 <= i < k ==> (#[trigger] rows[i]) is Ok),
        },
    decreases rows.len(),
{
    if rows.len() > 0 && rows[0] is Ok {
        let rest = rows.drop_first();
        law_first_failure_is_the_first(rest);
        assert forall|i: int| 1 <= i < rows.len() implies (#[trigger] rows[i]) == rest[i - 1] by {}
        match first_failure(rest) {
            None => {
                assert forall|i: int| 0 <= i < rows.len() implies (#[trigger] rows[i]) is Ok by {
                    if i > 0 {
                        assert(rest[i - 1] is Ok);
                    }
                }
            },
            Some(error) => {
                let k = choose|k: int|
                    0 <= k < rest.len() && (#[trigger] rest[k]) == Err::<String, String>(error) && (
                    forall|i: int| 0 <= i < k ==> (#[trigger] rest[i]) is Ok);
                assert(rows[k + 1] == rest[k]);
                assert forall|i: int| 0 <= i < k + 1 implies (#[trigger] rows[i]) is Ok by {
                    if i > 0 {
                        assert(rest[i - 1] is Ok);
                    }
                }
            },
        }
    }
}

/// A name is found among members where one of them has it, with the text of the last one
/// that has it.
pub proof fn law_members_are_found_by_their_names(members: Seq<Member>, name: Seq<char>, i: int)
    requires
        0 <= i < members.len(),
        forall|j: int| i < j < members.len() ==> (#[trigger] members[j]).name@
            != members[i].name@,
    ensures
        members_map(members).contains_key(members[i].name@),
        members_map(members)[members[i].name@] == members[i].text@,
        members_map(members).contains_key(name) <==> exists|k: int|
            0 <= k < members.len() && (#[trigger] members[k]).name@ == name,
{
    lemma_members_are_found(members, name);
    lemma_last_member(members, i);
}

/// Leaving one name out leaves out the members of that name alone, and keeps the order of
/// the others.
pub proof fn law_other_members_are_kept(members: Seq<Member>, name: Seq<char>, member: Member)
    ensures
        members_but(members.push(member), name) == (if member.name@ != name {
            members_but(members, name).push(member)
        } else {
            members_but(members, name)
        }),
        members_but(Seq::empty(), name).len() == 0,
{
    reveal(Seq::filter);
    assert(members.push(member).drop_last() =~= members);
}

proof fn lemma_last_member(members: Seq<Member>, i: int)
    requires
        0 <= i < members.len(),
        forall|j: int| i < j < members.len() ==> (#[trigger] members[j]).name@
            != members[i].name@,
    ensures
        members_map(members).contains_key(members[i].name@),
        members_map(members)[members[i].name@] == members[i].text@,
    decreases members.len(),
{
    let init = members.drop_last();
    if i < members.len() - 1 {
        assert forall|j: int| i < j < init.len() implies (#[trigger] init[j]).name@
            != init[i].name@ by {
            assert(init[j] == members[j]);
        }
        lemma_last_member(init, i);
        assert(init[i] == members[i]);
        assert(members[members.len() - 1].name@ != members[i].name@);
    }
}

proof fn lemma_members_are_found(members: Seq<Member>, name: Seq<char>)
    ensures
        members_map(members).contains_key(name) <==> exists|k: int|
            0 <= k < members.len() && (#[trigger] members[k]).name@ == name,
    decreases members.len(),
{
    if members.len() > 0 {
        let init = members.drop_last();
        lemma_members_are_found(init, name);
        if members_map(members).contains_key(name) {
            if members[members.len() - 1].name@ != name {
                let k = choose|k: int| 0 <= k < init.len() && (#[trigger] init[k]).name@ == name;
                assert(members[k].name@ == name);
            }
        }
        if exists|k: int| 0 <= k < members.len() && (#[trigger] members[k]).name@ == name {
            let k = choose|k: int| 0 <= k < members.len() && (#[trigger] members[k]).name@ == name;
            if k < init.len() {
                assert(init[k].name@ == name);
            }
        }
    }
}

/// What strings hold are their texts, whole and in order.
pub proof fn law_texts_are_whole(strings: Seq<String>)
    ensures
        texts(strings).len() == strings.len(),
        forall|i: int| 0 <= i < strings.len() ==> #[trigger] texts(strings)[i] == strings[i]@,
{
}

} // verus!
