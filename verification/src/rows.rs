//! What becomes of the rows that a statement hands back.

use vstd::prelude::*;

use crate::backend::Area;

verus! {

/// One row of a listing, after its text has been decoded.
pub enum Fetched<T> {
    /// The text was well formed.
    Decoded(T),
    /// The row could be read, its text was malformed.
    Malformed { id: String, error: String },
    /// The row could not be read.
    Failed { error: String },
}

/// What came back for a listing.
pub enum Reply<T> {
    /// The statement was not accepted.
    PrepareFailed { error: String },
    /// The statement could not be run.
    QueryFailed { error: String },
    /// The rows, in the order in which they came.
    Rows(Vec<Fetched<T>>),
}

/// Something that was left out or left undone, and why.
pub enum Warning {
    /// A listing's statement was not accepted.
    Prepare { area: Area, error: String },
    /// A listing's statement could not be run.
    Query { area: Area, error: String },
    /// A row could not be read.
    Row { area: Area, error: String },
    /// A row's text was malformed.
    Parse { area: Area, id: String, error: String },
    /// A value could not be encoded, and was not saved.
    Encode { area: Area, id: String, error: String },
    /// A value was not saved.
    Persist { area: Area, id: String, error: String },
    /// A value was not deleted.
    Delete { area: Area, id: String, error: String },
    /// A file's text was malformed.
    ParseFile { area: Area, path: String, error: String },
    /// A file could not be read.
    ReadFile { area: Area, path: String, error: String },
    /// A file could not be deleted.
    DeleteFile { area: Area, path: String, error: String },
}

/// Why a write failed, with its cause.
pub enum StoreError<E> {
    /// The value could not be encoded.
    Encode(E),
    /// The database refused the statement.
    Database(E),
}

/// What a listing gives: the values that could be had, and what was left out.
pub struct Loaded<T> {
    pub items: Vec<T>,
    pub warnings: Vec<Warning>,
}

impl<T> Fetched<T> {
    /// The value of a row, where it has one.
    pub open spec fn item(self) -> Option<T> {
        match self {
            Fetched::Decoded(value) => Some(value),
            _ => None,
        }
    }

    /// What is said of a row that is left out.
    pub open spec fn warning(self, area: Area) -> Option<Warning> {
        match self {
            Fetched::Decoded(_) => None,
            Fetched::Malformed { id, error } => Some(Warning::Parse { area, id, error }),
            Fetched::Failed { error } => Some(Warning::Row { area, error }),
        }
    }
}

/// A row under `id` whose text has been read and decoded, as far as that went: the outer
/// error is that of the reading, the inner one that of the decoding.
pub fn fetched<T>(id: String, read: Result<Result<T, String>, String>) -> (row: Fetched<T>)
    ensures
        row == match read {
            Ok(Ok(value)) => Fetched::Decoded(value),
            Ok(Err(error)) => Fetched::Malformed { id, error },
            Err(error) => Fetched::Failed { error },
        },
{
    match read {
        Ok(Ok(value)) => Fetched::Decoded(value),
        Ok(Err(error)) => Fetched::Malformed { id, error },
        Err(error) => Fetched::Failed { error },
    }
}

/// The values of the rows that have one, in the order of the rows.
pub open spec fn items_of<T>(rows: Seq<Fetched<T>>) -> Seq<T> {
    rows.filter_map(|row: Fetched<T>| row.item())
}

/// What is said of the rows that are left out, in the order of the rows.
pub open spec fn warnings_of<T>(rows: Seq<Fetched<T>>, area: Area) -> Seq<Warning> {
    rows.filter_map(|row: Fetched<T>| row.warning(area))
}

/// Keeps the values that a listing gave, in order. A row without a value is left out
/// with a warning, and a listing that failed as a whole gives no value at all.
pub fn collect<T>(area: Area, reply: Reply<T>) -> (loaded: Loaded<T>)
    ensures
        match reply {
            Reply::PrepareFailed { error } => loaded.items@ == Seq::<T>::empty()
                && loaded.warnings@ == seq![Warning::Prepare { area, error }],
            Reply::QueryFailed { error } => loaded.items@ == Seq::<T>::empty()
                && loaded.warnings@ == seq![Warning::Query { area, error }],
            Reply::Rows(rows) => loaded.items@ == items_of(rows@) && loaded.warnings@
                == warnings_of(rows@, area),
        },
{
    let mut items: Vec<T> = Vec::new();
    let mut warnings: Vec<Warning> = Vec::new();
    match reply {
        Reply::PrepareFailed { error } => {
            warnings.push(Warning::Prepare { area, error });
        },
        Reply::QueryFailed { error } => {
            warnings.push(Warning::Query { area, error });
        },
        Reply::Rows(rows) => {
            let ghost all = rows@;
            for row in iter: rows
                invariant
                    iter.seq() == all,
                    items@ == items_of(all.take(iter.index())),
                    warnings@ == warnings_of(all.take(iter.index()), area),
            {
                proof {
                    let done = all.take(iter.index() + 1);
                    assert(done.drop_last() =~= all.take(iter.index()));
                    assert(done.last() == row);
                }
                match row {
                    Fetched::Decoded(value) => items.push(value),
                    Fetched::Malformed { id, error } => warnings.push(
                        Warning::Parse { area, id, error },
                    ),
                    Fetched::Failed { error } => warnings.push(Warning::Row { area, error }),
                }
            }
            assert(all.take(all.len() as int) =~= all);
        },
    }
    Loaded { items, warnings }
}

} // verus!
