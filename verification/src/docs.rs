//! Named JSON documents in `agent.db`.

use vstd::prelude::*;

use crate::model::{answers, document, lemma_run_push, run, with_document, Database, Slot};
use crate::rows::StoreError;
use crate::sql::{Key, Query, Write};

verus! {

/// The statement that reads the document `name`.
pub fn get(name: &str) -> (query: Query)
    ensures
        query matches Query::Body { key } && key@ == (Slot::Doc { name: name@ }),
        forall|db: Database, body: Option<Seq<char>>| #[trigger]
            answers(db, query, body) == (body == document(db, name@)),
{
    Query::Body { key: Key::Doc { name: name.to_owned() } }
}

/// The document, once the statement has been run. One that is not there, or cannot be
/// read, is not found.
pub fn found(reply: Result<String, String>) -> (body: Option<String>)
    ensures
        body == match reply {
            Ok(body) => Some(body),
            Err(_) => None,
        },
{
    match reply {
        Ok(body) => Some(body),
        Err(_) => None,
    }
}

/// The statement that stores `body` as the document `name`, and replaces the body that
/// is there.
pub fn put(name: &str, body: &str) -> (writes: Vec<Write>)
    ensures
        writes.len() == 1,
        forall|db: Database| #[trigger]
            run(db, writes@) == with_document(db, name@, body@),
{
    let write = Write::Put { key: Key::Doc { name: name.to_owned() }, body: body.to_owned() };
    let writes = vec![write];
    assert forall|db: Database| #[trigger] run(db, writes@) == with_document(
        db,
        name@,
        body@,
    ) by {
        lemma_run_push(db, Seq::empty(), write);
        assert(writes@ =~= Seq::<Write>::empty().push(write));
        assert(run(db, Seq::<Write>::empty()) == db);
    }
    writes
}

/// The result of a write, once its statement has been run.
pub fn put_done<E>(outcome: Result<(), E>) -> (result: Result<(), StoreError<E>>)
    ensures
        result == match outcome {
            Ok(_) => Ok::<(), StoreError<E>>(()),
            Err(error) => Err(StoreError::Database(error)),
        },
{
    match outcome {
        Ok(_) => Ok(()),
        Err(error) => Err(StoreError::Database(error)),
    }
}

} // verus!
