//! What `agent.db` holds, and what a statement does to it.

use vstd::prelude::*;

use crate::rows::Fetched;
use crate::sql::{Query, Write};

verus! {

/// A row of `agent.db`, named by its table and its primary key.
pub enum Slot {
    /// A row of `meta`.
    Meta { key: Seq<char> },
    /// A row of `docs`.
    Doc { name: Seq<char> },
    /// A row of `chats`.
    Chat { id: Seq<char> },
    /// A row of `messages`: the message that stands at `seq` in its chat.
    Message { chat_id: Seq<char>, seq: nat },
    /// A row of `flow_runs`.
    Run { id: Seq<char> },
}

/// The database: the text that each of its rows holds. A primary key occurs at most
/// once in its table, so a row is found by its slot alone.
pub type Database = Map<Slot, Seq<char>>;

/// A chat as it is stored: everything but the messages in one text, and each message
/// in a text of its own.
#[verifier::ext_equal]
pub struct Transcript {
    pub meta: Seq<char>,
    pub messages: Seq<Seq<char>>,
}

/// The message slots of `chat_id` from position `from` on.
pub open spec fn is_message_from(slot: Slot, chat_id: Seq<char>, from: nat) -> bool {
    slot matches Slot::Message { chat_id: c, seq } && c == chat_id && from <= seq
}

/// The database after one statement.
pub open spec fn effect(db: Database, write: Write) -> Database {
    match write {
        Write::Put { key, body } => db.insert(key@, body@),
        Write::Delete { key } => db.remove(key@),
        Write::TrimMessages { chat_id, len } => without_messages_from(db, chat_id@, len as nat),
    }
}

/// The database without the messages of `chat_id` from position `len` on.
pub open spec fn without_messages_from(db: Database, chat_id: Seq<char>, len: nat) -> Database {
    Map::new(
        |slot: Slot| db.contains_key(slot) && !is_message_from(slot, chat_id, len),
        |slot: Slot| db[slot],
    )
}

/// The database after a sequence of statements.
pub open spec fn run(db: Database, writes: Seq<Write>) -> Database
    decreases writes.len(),
{
    if writes.len() == 0 {
        db
    } else {
        effect(run(db, writes.drop_last()), writes.last())
    }
}

/// The database that is there once it has been opened by [`crate::sql::schema`]. The
/// tables are made only where they are missing: one that was there is as it was, and one
/// that was not has no row.
pub open spec fn opened(db: Option<Database>) -> Database {
    match db {
        Some(there) => there,
        None => Map::empty(),
    }
}

/// One more statement takes effect after those before it.
pub proof fn lemma_run_push(db: Database, writes: Seq<Write>, write: Write)
    ensures
        run(db, writes.push(write)) == effect(run(db, writes), write),
{
    assert(writes.push(write).drop_last() =~= writes);
}

/// A sequence of statements takes effect after the one before it.
pub proof fn lemma_run_concat(db: Database, first: Seq<Write>, second: Seq<Write>)
    ensures
        run(db, first + second) == run(run(db, first), second),
    decreases second.len(),
{
    if second.len() == 0 {
        assert(first + second =~= first);
    } else {
        lemma_run_concat(db, first, second.drop_last());
        assert((first + second).drop_last() =~= first + second.drop_last());
    }
}

/// Whether the row at `slot` is one that `write` sets or removes.
pub open spec fn touches(write: Write, slot: Slot) -> bool {
    match write {
        Write::Put { key, .. } => slot == key@,
        Write::Delete { key } => slot == key@,
        Write::TrimMessages { chat_id, len } => is_message_from(slot, chat_id@, len as nat),
    }
}

/// The text of the row at `slot`, where there is such a row.
pub open spec fn row(db: Database, slot: Slot) -> Option<Seq<char>> {
    if db.contains_key(slot) {
        Some(db[slot])
    } else {
        None
    }
}

/// The body of the document `name`.
pub open spec fn document(db: Database, name: Seq<char>) -> Option<Seq<char>> {
    row(db, Slot::Doc { name })
}

/// The body of the flow run `id`.
pub open spec fn flow_run(db: Database, id: Seq<char>) -> Option<Seq<char>> {
    row(db, Slot::Run { id })
}

/// The database in which the document `name` has `body`, and every other row is as
/// before.
pub open spec fn with_document(db: Database, name: Seq<char>, body: Seq<char>) -> Database {
    db.insert(Slot::Doc { name }, body)
}

/// The database in which the flow run `id` has `body`, and every other row is as before.
pub open spec fn with_flow_run(db: Database, id: Seq<char>, body: Seq<char>) -> Database {
    db.insert(Slot::Run { id }, body)
}

/// The database in which `id` holds exactly `chat`, and every other row is as before.
pub open spec fn with_transcript(db: Database, id: Seq<char>, chat: Transcript) -> Database {
    Map::new(
        |slot: Slot|
            if is_message_from(slot, id, 0) {
                slot->seq < chat.messages.len()
            } else {
                slot == (Slot::Chat { id }) || db.contains_key(slot)
            },
        |slot: Slot|
            if is_message_from(slot, id, 0) {
                chat.messages[slot->seq as int]
            } else if slot == (Slot::Chat { id }) {
                chat.meta
            } else {
                db[slot]
            },
    )
}

/// The database in which `id` holds the text of `chat` and its messages at the positions
/// from `from` up to `to`, and every other row is as before.
pub open spec fn with_messages(
    db: Database,
    id: Seq<char>,
    chat: Transcript,
    from: nat,
    to: nat,
) -> Database {
    Map::new(
        |slot: Slot|
            is_message_from(slot, id, from) && slot->seq < to || slot == (Slot::Chat { id })
                || db.contains_key(slot),
        |slot: Slot|
            if is_message_from(slot, id, from) && slot->seq < to {
                chat.messages[slot->seq as int]
            } else if slot == (Slot::Chat { id }) {
                chat.meta
            } else {
                db[slot]
            },
    )
}

/// The database in which `id` has neither a row of its own nor a message, and every
/// other row is as before.
pub open spec fn without_transcript(db: Database, id: Seq<char>) -> Database {
    Map::new(
        |slot: Slot|
            db.contains_key(slot) && slot != (Slot::Chat { id }) && !is_message_from(slot, id, 0),
        |slot: Slot| db[slot],
    )
}

/// Whether `id` holds exactly `chat`.
pub open spec fn holds_transcript(db: Database, id: Seq<char>, chat: Transcript) -> bool {
    &&& db.contains_key(Slot::Chat { id })
    &&& db[Slot::Chat { id }] == chat.meta
    &&& holds_messages(db, id, chat.messages)
}

/// Whether the messages of `id` are exactly `messages`, numbered from zero.
pub open spec fn holds_messages(
    db: Database,
    id: Seq<char>,
    messages: Seq<Seq<char>>,
) -> bool {
    forall|seq: nat| #[trigger]
        db.contains_key(Slot::Message { chat_id: id, seq }) == (seq < messages.len()) && (seq
            < messages.len() ==> db[Slot::Message { chat_id: id, seq }] == messages[seq as int])
}

/// Whether `rows` are the rows of `chats`, each once, in any order: a primary key and
/// the text that is stored under it.
pub open spec fn lists_chats(db: Database, rows: Seq<(Seq<char>, Seq<char>)>) -> bool {
    lists(db, |id: Seq<char>| Slot::Chat { id }, rows)
}

/// Whether `rows` are the rows of `flow_runs`, each once, in any order.
pub open spec fn lists_runs(db: Database, rows: Seq<(Seq<char>, Seq<char>)>) -> bool {
    lists(db, |id: Seq<char>| Slot::Run { id }, rows)
}

/// Whether `rows` hold each row whose slot `slot_of` gives, once, in any order.
pub open spec fn lists(
    db: Database,
    slot_of: spec_fn(Seq<char>) -> Slot,
    rows: Seq<(Seq<char>, Seq<char>)>,
) -> bool {
    &&& forall|i: int|
        #![trigger rows[i]]
        0 <= i < rows.len() ==> db.contains_key(slot_of(rows[i].0)) && db[slot_of(rows[i].0)]
            == rows[i].1
    &&& forall|i: int, j: int|
        #![trigger rows[i], rows[j]]
        0 <= i < j < rows.len() ==> rows[i].0 != rows[j].0
    &&& forall|id: Seq<char>| #[trigger]
        db.contains_key(slot_of(id)) ==> exists|i: int|
            0 <= i < rows.len() && #[trigger] rows[i].0 == id
}

/// Whether `bodies` are the messages of `id` in the order of their numbers: `seqs` are
/// those numbers.
pub open spec fn lists_messages_at(
    db: Database,
    id: Seq<char>,
    seqs: Seq<nat>,
    bodies: Seq<Seq<char>>,
) -> bool {
    &&& seqs.len() == bodies.len()
    &&& forall|i: int, j: int|
        #![trigger seqs[i], seqs[j]]
        0 <= i < j < seqs.len() ==> seqs[i] < seqs[j]
    &&& forall|i: int|
        #![trigger seqs[i]]
        0 <= i < seqs.len() ==> db.contains_key(Slot::Message { chat_id: id, seq: seqs[i] })
            && db[Slot::Message { chat_id: id, seq: seqs[i] }] == bodies[i]
    &&& forall|seq: nat| #[trigger]
        db.contains_key(Slot::Message { chat_id: id, seq }) ==> seqs.contains(seq)
}

/// Whether `bodies` are the messages of `id` in the order of their numbers.
pub open spec fn lists_messages(db: Database, id: Seq<char>, bodies: Seq<Seq<char>>) -> bool {
    exists|seqs: Seq<nat>| lists_messages_at(db, id, seqs, bodies)
}

/// Whether `rows` are the chats of the database as they were read and decoded: for the
/// chat that stands in `listing[i]`, `read[i]` is its transcript, and `rows[i]` has what
/// `decode` makes of it.
pub open spec fn fetches_chats<T>(
    db: Database,
    decode: spec_fn(Transcript) -> Option<T>,
    listing: Seq<(Seq<char>, Seq<char>)>,
    read: Seq<Transcript>,
    rows: Seq<Fetched<T>>,
) -> bool {
    &&& lists_chats(db, listing)
    &&& read.len() == listing.len()
    &&& rows.len() == listing.len()
    &&& forall|i: int|
        #![trigger listing[i]]
        #![trigger read[i]]
        #![trigger rows[i]]
        0 <= i < listing.len() ==> read[i].meta == listing[i].1 && lists_messages(
            db,
            listing[i].0,
            read[i].messages,
        ) && rows[i].item() == decode(read[i])
}

/// Whether `rows` are the flow runs of the database as they were read and decoded.
pub open spec fn fetches_runs<T>(
    db: Database,
    decode: spec_fn(Seq<char>) -> Option<T>,
    listing: Seq<(Seq<char>, Seq<char>)>,
    rows: Seq<Fetched<T>>,
) -> bool {
    &&& lists_runs(db, listing)
    &&& rows.len() == listing.len()
    &&& forall|i: int|
        #![trigger listing[i]]
        #![trigger rows[i]]
        0 <= i < listing.len() ==> rows[i].item() == decode(listing[i].1)
}

/// Whether `body` is the answer to a statement that reads a single row: its text, or
/// nothing where there is no such row.
pub open spec fn answers(db: Database, query: Query, body: Option<Seq<char>>) -> bool {
    query matches Query::Body { key } && body == row(db, key@)
}

/// Whether `rows` are an answer to a statement that lists a table.
pub open spec fn answers_with_rows(
    db: Database,
    query: Query,
    rows: Seq<(Seq<char>, Seq<char>)>,
) -> bool {
    match query {
        Query::Chats => lists_chats(db, rows),
        Query::Runs => lists_runs(db, rows),
        _ => false,
    }
}

/// Whether `bodies` are the answer to the statement that lists the messages of a chat.
pub open spec fn answers_with_bodies(
    db: Database,
    query: Query,
    bodies: Seq<Seq<char>>,
) -> bool {
    query matches Query::Messages { chat_id } && lists_messages(db, chat_id@, bodies)
}

} // verus!
