//! Flow runs in `agent.db`: one row each, with the whole run in its body.

use vstd::prelude::*;

use crate::backend::Area;
use crate::model::{
    answers, answers_with_rows, flow_run, lemma_run_push, lists_runs, run, with_flow_run, Database,
    Slot,
};
use crate::rows::{collect, items_of, warnings_of, Loaded, Reply, StoreError, Warning};
use crate::sql::{Key, Query, Write};

verus! {

/// The statement that stores a run under `id`, and replaces the one that is there. A
/// run that could not be encoded is not saved.
pub fn save<E>(id: &str, encoded: Result<String, E>) -> (result: Result<Vec<Write>, StoreError<E>>)
    ensures
        match encoded {
            Ok(body) => result matches Ok(writes) && writes.len() == 1 && (forall|db: Database|
             #[trigger]
                run(db, writes@) == with_flow_run(db, id@, body@)),
            Err(error) => result == Err::<Vec<Write>, StoreError<E>>(StoreError::Encode(error)),
        },
{
    match encoded {
        Ok(body) => {
            let ghost text = body@;
            let write = Write::Put { key: Key::Run { id: id.to_owned() }, body };
            let writes = vec![write];
            assert forall|db: Database| #[trigger] run(db, writes@) == with_flow_run(
                db,
                id@,
                text,
            ) by {
                lemma_run_push(db, Seq::empty(), write);
                assert(writes@ =~= Seq::<Write>::empty().push(write));
                assert(run(db, Seq::<Write>::empty()) == db);
            }
            Ok(writes)
        },
        Err(error) => Err(StoreError::Encode(error)),
    }
}

/// The result of a save, once its statement has been run.
pub fn saved<E>(outcome: Result<(), E>) -> (result: Result<(), StoreError<E>>)
    ensures
        result == match outcome {
            Ok(_) => Ok::<(), StoreError<E>>(()),
            Err(error) => Err(StoreError::Database(error)),
        },
{
    match outcome {
        Ok(_) => Ok(()),
        Err(error) => Err(StoreError::Database(error)),
    }
}

/// The statement that reads the run `id`.
pub fn load(id: &str) -> (query: Query)
    ensures
        query matches Query::Body { key } && key@ == (Slot::Run { id: id@ }),
        forall|db: Database, body: Option<Seq<char>>| #[trigger]
            answers(db, query, body) == (body == flow_run(db, id@)),
{
    Query::Body { key: Key::Run { id: id.to_owned() } }
}

/// The run, once its body has been read and decoded: the outer error is that of the
/// reading, the inner one that of the decoding. With either there is no run.
pub fn loaded<T>(read: Result<Result<T, String>, String>) -> (value: Option<T>)
    ensures
        value == match read {
            Ok(Ok(run)) => Some(run),
            _ => None,
        },
{
    match read {
        Ok(Ok(run)) => Some(run),
        _ => None,
    }
}

/// The statement that lists the runs.
pub fn list_query() -> (query: Query)
    ensures
        query == Query::Runs,
        forall|db: Database, rows: Seq<(Seq<char>, Seq<char>)>| #[trigger]
            answers_with_rows(db, query, rows) == lists_runs(db, rows),
{
    Query::Runs
}

/// Every run that could be read and decoded. A malformed one is left out with a
/// warning.
pub fn list<T>(reply: Reply<T>) -> (loaded: Loaded<T>)
    ensures
        match reply {
            Reply::PrepareFailed { error } => loaded.items@ == Seq::<T>::empty()
                && loaded.warnings@ == seq![Warning::Prepare { area: Area::FlowRuns, error }],
            Reply::QueryFailed { error } => loaded.items@ == Seq::<T>::empty()
                && loaded.warnings@ == seq![Warning::Query { area: Area::FlowRuns, error }],
            Reply::Rows(rows) => loaded.items@ == items_of(rows@) && loaded.warnings@
                == warnings_of(rows@, Area::FlowRuns),
        },
{
    collect(Area::FlowRuns, reply)
}

} // verus!
