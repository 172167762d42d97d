//! Chat transcripts in `agent.db`.
//!
//! A chat is one row of `chats`, which holds all but its messages, and one row of
//! `messages` for each message, numbered from zero.

use vstd::prelude::*;

use crate::backend::Area;
use crate::json::{
    array_of, describe, is_value, lemma_members_but_values, members_map, object_of, parse_array,
    parse_object, put_member, take_member, texts, value_of, write_array, write_object,
};
use crate::model::{
    answers_with_bodies, answers_with_rows, effect, lemma_run_push, lists_chats, lists_messages,
    run, with_messages, with_transcript, without_transcript, Database, Transcript,
};
use crate::rows::{collect, items_of, warnings_of, Loaded, Reply, Warning};
use crate::sql::{Key, Query, Write};

verus! {

/// A chat in the texts that are stored: all but the messages, and each message.
pub struct EncodedChat {
    pub meta: String,
    pub messages: Vec<String>,
}

impl View for EncodedChat {
    type V = Transcript;

    open spec fn view(&self) -> Transcript {
        Transcript { meta: self.meta@, messages: texts(self.messages@) }
    }
}

/// The messages in an object: the items of its member `messages`, where that is an array.
pub open spec fn messages_in(object: Map<Seq<char>, Seq<char>>) -> Seq<Seq<char>> {
    if object.contains_key("messages"@) {
        match array_of(object["messages"@]) {
            Some(items) => items,
            None => Seq::empty(),
        }
    } else {
        Seq::empty()
    }
}

/// Whether a chat is stored as `chat` when its text is `text`. Messages are taken out of
/// the text and stored one by one. A text without messages is stored as it stands.
pub open spec fn splits(text: Seq<char>, chat: Transcript) -> bool {
    &&& object_of(text) is Some
    &&& chat.messages == messages_in(object_of(text).unwrap())
    &&& forall|i: int| 0 <= i < chat.messages.len() ==> is_value(#[trigger] chat.messages[i])
    &&& if chat.messages.len() == 0 {
        chat.meta == text
    } else {
        object_of(chat.meta) == Some(object_of(text).unwrap().remove("messages"@))
    }
}

/// Whether the parts of a chat can be put together into one text: where it has messages,
/// each of them is a JSON value, and the rest of the chat is an object.
pub open spec fn can_join(chat: Transcript) -> bool {
    chat.messages.len() > 0 ==> {
        &&& object_of(chat.meta) is Some
        &&& forall|i: int|
            0 <= i < chat.messages.len() ==> value_of(#[trigger] chat.messages[i]) is Some
    }
}

/// Whether `text` is the text of a chat that is stored as `chat`: its messages stand in
/// the member `messages`, in place of what the rest of the chat has there. The text of a
/// chat without messages is what is stored.
pub open spec fn joins(chat: Transcript, text: Seq<char>) -> bool {
    if chat.messages.len() == 0 {
        text == chat.meta
    } else {
        &&& object_of(chat.meta) is Some
        &&& object_of(text) is Some
        &&& object_of(text).unwrap().remove("messages"@) == object_of(
            chat.meta,
        ).unwrap().remove("messages"@)
        &&& object_of(text).unwrap().contains_key("messages"@)
        &&& array_of(object_of(text).unwrap()["messages"@]) == Some(
            chat.messages.map_values(|m: Seq<char>| value_of(m).unwrap()),
        )
    }
}

/// Takes the text of a chat apart. A text that is not a JSON object is refused.
pub fn split(text: &str) -> (result: Result<EncodedChat, String>)
    ensures
        result is Ok <==> object_of(text@) is Some,
        result matches Ok(chat) ==> splits(text@, chat@),
{
    let members = match parse_object(text) {
        Ok(members) => members,
        Err(error) => {
            return Err(describe(&error));
        },
    };
    let ghost object = members_map(members@);
    let ghost all = members@;
    let (rest, found) = take_member(members, "messages");
    let messages: Vec<String> = match found {
        Some(array) => match parse_array(array.as_str()) {
            Ok(items) => items,
            Err(_) => Vec::new(),
        },
        None => Vec::new(),
    };
    assert(texts(messages@) =~= messages_in(object));
    if messages.len() == 0 {
        return Ok(EncodedChat { meta: text.to_owned(), messages });
    }
    proof {
        lemma_members_but_values(all, "messages"@);
    }
    match write_object(&rest) {
        Ok(meta) => Ok(EncodedChat { meta, messages }),
        Err(error) => Err(describe(&error)),
    }
}

/// Puts the text of a chat together. It is refused where the chat has messages and one of
/// them is not a JSON value, or the rest of the chat is not a JSON object.
pub fn join(chat: &EncodedChat) -> (result: Result<String, String>)
    ensures
        result is Ok <==> can_join(chat@),
        result matches Ok(text) ==> joins(chat@, text@),
{
    if chat.messages.len() == 0 {
        return Ok(chat.meta.clone());
    }
    let array = match write_array(&chat.messages) {
        Ok(array) => array,
        Err(error) => {
            proof {
                let i = choose|i: int|
                    0 <= i < chat.messages.len() && value_of((#[trigger] chat.messages[i])@) is None;
                assert(chat@.messages[i] == chat.messages[i]@);
            }
            return Err(describe(&error));
        },
    };
    let members = match parse_object(chat.meta.as_str()) {
        Ok(members) => members,
        Err(error) => {
            return Err(describe(&error));
        },
    };
    let ghost all = members@;
    let ghost object = members_map(members@);
    let ghost array_text = array@;
    let put = put_member(members, "messages", array);
    assert forall|i: int| 0 <= i < put.len() implies is_value((#[trigger] put[i]).text@) by {
        if i < put.len() - 1 {
            lemma_members_but_values(all, "messages"@);
            assert(put[i] == put@.drop_last()[i]);
        }
    }
    match write_object(&put) {
        Ok(text) => {
            proof {
                let written = object.insert("messages"@, array_text);
                assert(object_of(text@) == Some(written));
                assert(written.remove("messages"@) =~= object.remove("messages"@));
                assert(chat.messages@.map_values(|s: String| value_of(s@).unwrap())
                    =~= chat@.messages.map_values(|m: Seq<char>| value_of(m).unwrap()));
                assert forall|i: int| 0 <= i < chat@.messages.len() implies value_of(
                    #[trigger] chat@.messages[i],
                ) is Some by {
                    assert(value_of(chat.messages[i]@) is Some);
                }
            }
            Ok(text)
        },
        Err(error) => Err(describe(&error)),
    }
}

/// The statements that store the text of a chat and its messages from position `from`
/// on.
fn store_from(id: &str, chat: &EncodedChat, from: usize) -> (writes: Vec<Write>)
    requires
        from <= chat.messages.len(),
    ensures
        writes.len() == 1 + chat.messages.len() - from,
        forall|db: Database| #[trigger]
            run(db, writes@) == with_messages(
                db,
                id@,
                chat@,
                from as nat,
                chat.messages.len() as nat,
            ),
{
    let mut writes: Vec<Write> = Vec::new();
    writes.push(Write::Put { key: Key::Chat { id: id.to_owned() }, body: chat.meta.clone() });
    assert forall|db: Database| #[trigger] run(db, writes@) == with_messages(
        db,
        id@,
        chat@,
        from as nat,
        from as nat,
    ) by {
        lemma_run_push(db, Seq::empty(), writes@[0]);
        assert(writes@ =~= Seq::<Write>::empty().push(writes@[0]));
        assert(run(db, Seq::<Write>::empty()) == db);
        assert(run(db, writes@) =~= with_messages(db, id@, chat@, from as nat, from as nat));
    }
    let mut i: usize = from;
    while i < chat.messages.len()
        invariant
            from <= i <= chat.messages.len(),
            writes.len() == 1 + i - from,
            forall|db: Database| #[trigger]
                run(db, writes@) == with_messages(db, id@, chat@, from as nat, i as nat),
        decreases chat.messages.len() - i,
    {
        let ghost before = writes@;
        let write = Write::Put {
            key: Key::Message { chat_id: id.to_owned(), seq: i as u64 },
            body: chat.messages[i].clone(),
        };
        writes.push(write);
        i += 1;
        assert forall|db: Database| #[trigger] run(db, writes@) == with_messages(
            db,
            id@,
            chat@,
            from as nat,
            i as nat,
        ) by {
            lemma_run_push(db, before, write);
            assert(run(db, before) == with_messages(db, id@, chat@, from as nat, (i - 1) as nat));
            assert(run(db, writes@) =~= with_messages(db, id@, chat@, from as nat, i as nat));
        }
    }
    writes
}

/// The statements that write the full transcript for `id` and overwrite any copy that
/// is there. They are to be run in one transaction.
pub fn overwrite(id: &str, chat: &EncodedChat) -> (writes: Vec<Write>)
    ensures
        forall|db: Database| #[trigger]
            run(db, writes@) == with_transcript(db, id@, chat@),
{
    let mut writes = store_from(id, chat, 0);
    let ghost before = writes@;
    let write = Write::TrimMessages { chat_id: id.to_owned(), len: chat.messages.len() as u64 };
    writes.push(write);
    assert forall|db: Database| #[trigger] run(db, writes@) == with_transcript(
        db,
        id@,
        chat@,
    ) by {
        lemma_run_push(db, before, write);
        let stored = with_messages(db, id@, chat@, 0, chat.messages.len() as nat);
        assert(run(db, before) == stored);
        assert(effect(stored, write) =~= with_transcript(db, id@, chat@));
    }
    writes
}

/// The statements that save a chat under `id`, to be run in one transaction. One that
/// could not be encoded is not saved.
pub fn save(id: &str, encoded: Result<EncodedChat, String>) -> (result: Result<
    Vec<Write>,
    Warning,
>)
    ensures
        match encoded {
            Ok(chat) => result matches Ok(writes) && (forall|db: Database| #[trigger]
                run(db, writes@) == with_transcript(db, id@, chat@)),
            Err(error) => result matches Err(Warning::Encode { area, id: i, error: e }) && area
                == Area::Chats && i@ == id@ && e == error,
        },
{
    match encoded {
        Ok(chat) => Ok(overwrite(id, &chat)),
        Err(error) => Err(Warning::Encode { area: Area::Chats, id: id.to_owned(), error }),
    }
}

/// The statements that save a chat under `id`, given its text, to be run in one
/// transaction. A chat that could not be encoded, or whose text is not a JSON object, is
/// not saved.
pub fn save_text(id: &str, text: Result<String, String>) -> (result: Result<Vec<Write>, Warning>)
    ensures
        match text {
            Ok(t) => {
                &&& result is Ok <==> object_of(t@) is Some
                &&& result matches Ok(writes) ==> exists|chat: Transcript| #[trigger]
                    splits(t@, chat) && (forall|db: Database| #[trigger]
                        run(db, writes@) == with_transcript(db, id@, chat))
                &&& result matches Err(warning) ==> (warning matches Warning::Encode {
                    area,
                    id: i,
                    ..
                } && area == Area::Chats && i@ == id@)
            },
            Err(error) => result matches Err(Warning::Encode { area, id: i, error: e }) && area
                == Area::Chats && i@ == id@ && e == error,
        },
{
    match text {
        Ok(t) => {
            let encoded = split(t.as_str());
            let result = save(id, encoded);
            proof {
                if encoded is Ok {
                    assert(splits(t@, encoded->Ok_0@));
                }
            }
            result
        },
        Err(error) => save(id, Err(error)),
    }
}

/// The statements that bring the stored transcript for `id` up to date when its first
/// `persisted` messages are stored already: only the text of the chat and the messages
/// after those are written. A chat with fewer messages is written in full. `persisted`
/// counts the rows of `messages`; messages in the text of the chat itself do not count.
/// The statements are to be run in one transaction.
pub fn append(id: &str, encoded: Result<EncodedChat, String>, persisted: usize) -> (result: Result<
    Vec<Write>,
    Warning,
>)
    ensures
        match encoded {
            Ok(chat) => {
                &&& result matches Ok(writes)
                &&& persisted <= chat.messages.len() ==> writes.len() == 1 + chat.messages.len()
                    - persisted && (forall|db: Database| #[trigger]
                    run(db, writes@) == with_messages(
                        db,
                        id@,
                        chat@,
                        persisted as nat,
                        chat.messages.len() as nat,
                    ))
                &&& persisted > chat.messages.len() ==> (forall|db: Database| #[trigger]
                    run(db, writes@) == with_transcript(db, id@, chat@))
            },
            Err(error) => result matches Err(Warning::Encode { area, id: i, error: e }) && area
                == Area::Chats && i@ == id@ && e == error,
        },
{
    match encoded {
        Ok(chat) => if persisted <= chat.messages.len() {
            Ok(store_from(id, &chat, persisted))
        } else {
            Ok(overwrite(id, &chat))
        },
        Err(error) => Err(Warning::Encode { area: Area::Chats, id: id.to_owned(), error }),
    }
}

/// What is said of a save once its statements have been run.
pub fn saved(id: &str, outcome: Result<(), String>) -> (warning: Option<Warning>)
    ensures
        match outcome {
            Ok(_) => warning is None,
            Err(error) => warning matches Some(Warning::Persist { area, id: i, error: e }) && area
                == Area::Chats && i@ == id@ && e == error,
        },
{
    match outcome {
        Ok(_) => None,
        Err(error) => Some(Warning::Persist { area: Area::Chats, id: id.to_owned(), error }),
    }
}

/// The statements that delete the transcript for `id` if it is present, to be run in one
/// transaction.
pub fn delete(id: &str) -> (writes: Vec<Write>)
    ensures
        forall|db: Database| #[trigger] run(db, writes@) == without_transcript(db, id@),
{
    let trim = Write::TrimMessages { chat_id: id.to_owned(), len: 0 };
    let remove = Write::Delete { key: Key::Chat { id: id.to_owned() } };
    let writes = vec![trim, remove];
    assert forall|db: Database| #[trigger] run(db, writes@) == without_transcript(db, id@) by {
        lemma_run_push(db, Seq::empty(), trim);
        lemma_run_push(db, Seq::empty().push(trim), remove);
        assert(writes@ =~= Seq::<Write>::empty().push(trim).push(remove));
        assert(run(db, Seq::<Write>::empty()) == db);
        assert(run(db, writes@) =~= without_transcript(db, id@));
    }
    writes
}

/// What is said of a deletion once its statements have been run.
pub fn deleted(id: &str, outcome: Result<(), String>) -> (warning: Option<Warning>)
    ensures
        match outcome {
            Ok(_) => warning is None,
            Err(error) => warning matches Some(Warning::Delete { area, id: i, error: e }) && area
                == Area::Chats && i@ == id@ && e == error,
        },
{
    match outcome {
        Ok(_) => None,
        Err(error) => Some(Warning::Delete { area: Area::Chats, id: id.to_owned(), error }),
    }
}

/// The statement that lists the chats.
pub fn list_query() -> (query: Query)
    ensures
        query == Query::Chats,
        forall|db: Database, rows: Seq<(Seq<char>, Seq<char>)>| #[trigger]
            answers_with_rows(db, query, rows) == lists_chats(db, rows),
{
    Query::Chats
}

/// The statement that lists the messages of one chat.
pub fn messages_query(id: &str) -> (query: Query)
    ensures
        query matches Query::Messages { chat_id } && chat_id@ == id@,
        forall|db: Database, bodies: Seq<Seq<char>>| #[trigger]
            answers_with_bodies(db, query, bodies) == lists_messages(db, id@, bodies),
{
    Query::Messages { chat_id: id.to_owned() }
}

/// The first row of a listing that could not be read.
pub open spec fn first_failure(rows: Seq<Result<String, String>>) -> Option<String>
    decreases rows.len(),
{
    if rows.len() == 0 {
        None
    } else {
        match rows[0] {
            Err(error) => Some(error),
            Ok(_) => first_failure(rows.drop_first()),
        }
    }
}

/// Puts a chat together from its own row and the reply to [`messages_query`]. A chat
/// of which a message cannot be read is not put together.
pub fn assemble(meta: String, reply: Result<Vec<Result<String, String>>, String>) -> (chat: Result<
    EncodedChat,
    String,
>)
    ensures
        match reply {
            Err(error) => chat == Err::<EncodedChat, String>(error),
            Ok(rows) => match first_failure(rows@) {
                Some(error) => chat == Err::<EncodedChat, String>(error),
                None => chat matches Ok(c) && c.meta == meta && c.messages.len() == rows.len()
                    && forall|i: int|
                    0 <= i < rows.len() ==> rows[i] == Ok::<String, String>(
                        #[trigger] c.messages[i],
                    ),
            },
        },
{
    match reply {
        Err(error) => Err(error),
        Ok(rows) => {
            let ghost all = rows@;
            let mut messages: Vec<String> = Vec::new();
            proof {
                assert(all.skip(0) =~= all);
            }
            for row in iter: rows
                invariant
                    iter.seq() == all,
                    messages.len() == iter.index(),
                    first_failure(all) == first_failure(all.skip(iter.index())),
                    forall|i: int|
                        0 <= i < messages.len() ==> all[i] == Ok::<String, String>(
                            #[trigger] messages[i],
                        ),
                    reply == Ok::<Vec<Result<String, String>>, String>(rows),
                    rows@ == all,
            {
                proof {
                    let rest = all.skip(iter.index());
                    assert(rest[0] == row);
                    assert(rest.drop_first() =~= all.skip(iter.index() + 1));
                }
                match row {
                    Err(error) => {
                        return Err(error);
                    },
                    Ok(body) => messages.push(body),
                }
            }
            proof {
                assert(all.skip(all.len() as int).len() == 0);
            }
            Ok(EncodedChat { meta, messages })
        },
    }
}

/// Every transcript that could be read and decoded. A malformed one is left out with a
/// warning.
pub fn load_all<T>(reply: Reply<T>) -> (loaded: Loaded<T>)
    ensures
        match reply {
            Reply::PrepareFailed { error } => loaded.items@ == Seq::<T>::empty()
                && loaded.warnings@ == seq![Warning::Prepare { area: Area::Chats, error }],
            Reply::QueryFailed { error } => loaded.items@ == Seq::<T>::empty()
                && loaded.warnings@ == seq![Warning::Query { area: Area::Chats, error }],
            Reply::Rows(rows) => loaded.items@ == items_of(rows@) && loaded.warnings@
                == warnings_of(rows@, Area::Chats),
        },
{
    collect(Area::Chats, reply)
}

} // verus!
