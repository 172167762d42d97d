//! What the operations promise together.

use vstd::prelude::*;

use crate::backend::{requested_by, Area, Backend};
use crate::chats::{can_join, joins, messages_in, splits, EncodedChat};
use crate::disk::{content, lists_dir, scratch, DirEntry, Disk};
use crate::files::{
    complaints_of, fetches_files, json_entries_of, json_entry_of, parsed_of, with_json_file,
    without_json_file, FileRead,
};
use crate::json::{array_of, object_of, value_of};
use crate::listing::{
    lemma_kept_alike, lemma_listed_values, lemma_values_alike, lemma_values_len, values_of,
};
use crate::migrate::{
    migrated, with_chats, with_docs, with_each, with_flow_runs, LegacyChat, LegacyDoc, LegacyRun,
    LegacyState,
};
use crate::model::{
    document, fetches_chats, fetches_runs, flow_run, holds_messages, holds_transcript,
    is_message_from, lemma_run_concat, lists, lists_chats, lists_messages, lists_messages_at,
    lists_runs, opened, row, run, touches, with_document, with_flow_run, with_messages,
    with_transcript, without_transcript, Database, Slot, Transcript,
};
use crate::paths::{is_json_name, json_name, json_place, Folder, Place};
use crate::rows::{items_of, warnings_of, Fetched};
use crate::sql::{ParamValue, Write};

verus! {

// Statements.

/// A row is found by its table and the values of its primary key: no two rows share both.
pub proof fn law_row_is_found_by_its_key(slot: Slot, other: Slot)
    requires
        slot.table() == other.table(),
        slot.values() == other.values(),
    ensures
        slot == other,
{
    let first = slot.values()[0];
    assert(first == other.values()[0]);
    match slot {
        Slot::Meta { key } => assert(first == ParamValue::Text(key)),
        Slot::Doc { name } => assert(first == ParamValue::Text(name)),
        Slot::Chat { id } => assert(first == ParamValue::Text(id)),
        Slot::Message { chat_id, seq } => {
            assert(first == ParamValue::Text(chat_id));
            assert(slot.values()[1] == ParamValue::Integer(seq));
            assert(other.values()[1] == ParamValue::Integer(other->seq));
        },
        Slot::Run { id } => assert(first == ParamValue::Text(id)),
    }
}

/// A row that no statement of a sequence sets or removes stays as it is.
pub proof fn law_untouched_row_stays(db: Database, writes: Seq<Write>, slot: Slot)
    requires
        forall|i: int| 0 <= i < writes.len() ==> !touches(#[trigger] writes[i], slot),
    ensures
        row(run(db, writes), slot) == row(db, slot),
    decreases writes.len(),
{
    if writes.len() > 0 {
        let init = writes.drop_last();
        assert forall|i: int| 0 <= i < init.len() implies !touches(#[trigger] init[i], slot) by {
            assert(init[i] == writes[i]);
        }
        law_untouched_row_stays(db, init, slot);
        assert(!touches(writes[writes.len() - 1], slot));
    }
}

/// What a sequence of statements leaves in a row that one of them sets or removes does
/// not depend on what the database held.
pub proof fn law_touched_row_is_determined(
    db: Database,
    other: Database,
    writes: Seq<Write>,
    slot: Slot,
)
    requires
        exists|i: int| 0 <= i < writes.len() && touches(#[trigger] writes[i], slot),
    ensures
        row(run(db, writes), slot) == row(run(other, writes), slot),
    decreases writes.len(),
{
    let init = writes.drop_last();
    let last = writes.last();
    if !touches(last, slot) {
        let i = choose|i: int| 0 <= i < writes.len() && touches(#[trigger] writes[i], slot);
        assert(init[i] == writes[i]);
        law_touched_row_is_determined(db, other, init, slot);
    }
}

/// Running a sequence of statements once more right after itself changes nothing: a
/// retried save, turn or migration leaves what the first one left.
pub proof fn law_rerun_changes_nothing(db: Database, writes: Seq<Write>)
    ensures
        run(run(db, writes), writes) == run(db, writes),
{
    let once = run(db, writes);
    let twice = run(once, writes);
    assert forall|slot: Slot| row(once, slot) == row(twice, slot) by {
        if exists|i: int| 0 <= i < writes.len() && touches(#[trigger] writes[i], slot) {
            law_touched_row_is_determined(db, once, writes, slot);
        } else {
            law_untouched_row_stays(once, writes, slot);
        }
    }
    lemma_same_rows(twice, once);
}

proof fn lemma_same_rows(db: Database, other: Database)
    requires
        forall|slot: Slot| row(other, slot) == row(db, slot),
    ensures
        db == other,
{
    assert forall|slot: Slot| #[trigger] db.contains_key(slot) == other.contains_key(slot) by {
        assert(row(other, slot) == row(db, slot));
    }
    assert forall|slot: Slot| #[trigger] db.contains_key(slot) implies db[slot] == other[slot] by {
        assert(row(other, slot) == row(db, slot));
    }
    assert(db =~= other);
}

/// Opening a database keeps every row, and one that was not there has none. Opening it
/// again changes nothing.
pub proof fn law_opening_keeps_every_row(db: Option<Database>, slot: Slot)
    ensures
        row(opened(db), slot) == match db {
            Some(there) => row(there, slot),
            None => None,
        },
        opened(Some(opened(db))) == opened(db),
{
}

/// What statements leave does not depend on whether the database was opened again among
/// them.
pub proof fn law_reopening_changes_nothing(
    db: Option<Database>,
    first: Seq<Write>,
    second: Seq<Write>,
)
    ensures
        run(opened(Some(run(opened(db), first))), second) == run(opened(db), first + second),
{
    lemma_run_concat(opened(db), first, second);
}

// Documents and flow runs.

/// A document that was put is found, with the body that was put last. A document of
/// another name is what it was, and so are the chats and the flow runs.
pub proof fn law_document_put_is_found(
    db: Database,
    name: Seq<char>,
    first: Seq<char>,
    body: Seq<char>,
)
    ensures
        document(with_document(db, name, body), name) == Some(body),
        with_document(with_document(db, name, first), name, body) == with_document(db, name, body),
        forall|other: Seq<char>|
            other != name ==> #[trigger] document(with_document(db, name, body), other)
                == document(db, other),
        forall|id: Seq<char>| #[trigger]
            flow_run(with_document(db, name, body), id) == flow_run(db, id),
        forall|id: Seq<char>, chat: Transcript| #[trigger]
            holds_transcript(with_document(db, name, body), id, chat) == holds_transcript(
                db,
                id,
                chat,
            ),
{
    let after = with_document(db, name, body);
    assert(with_document(with_document(db, name, first), name, body) =~= after);
    assert forall|id: Seq<char>, chat: Transcript| #[trigger]
        holds_transcript(after, id, chat) == holds_transcript(db, id, chat) by {
        lemma_same_transcript(db, after, id, chat);
    }
}

/// A flow run that was saved is found, with the body that was saved last. Another run is
/// what it was, and so are the chats and the documents.
pub proof fn law_flow_run_saved_is_found(
    db: Database,
    id: Seq<char>,
    first: Seq<char>,
    body: Seq<char>,
)
    ensures
        flow_run(with_flow_run(db, id, body), id) == Some(body),
        with_flow_run(with_flow_run(db, id, first), id, body) == with_flow_run(db, id, body),
        forall|other: Seq<char>|
            other != id ==> #[trigger] flow_run(with_flow_run(db, id, body), other) == flow_run(
                db,
                other,
            ),
        forall|name: Seq<char>| #[trigger]
            document(with_flow_run(db, id, body), name) == document(db, name),
        forall|other: Seq<char>, chat: Transcript| #[trigger]
            holds_transcript(with_flow_run(db, id, body), other, chat) == holds_transcript(
                db,
                other,
                chat,
            ),
{
    let after = with_flow_run(db, id, body);
    assert(with_flow_run(with_flow_run(db, id, first), id, body) =~= after);
    assert forall|other: Seq<char>, chat: Transcript| #[trigger]
        holds_transcript(after, other, chat) == holds_transcript(db, other, chat) by {
        lemma_same_transcript(db, after, other, chat);
    }
}

/// A transcript is held by its own rows alone.
proof fn lemma_same_transcript(db: Database, after: Database, id: Seq<char>, chat: Transcript)
    requires
        row(after, Slot::Chat { id }) == row(db, Slot::Chat { id }),
        forall|seq: nat|
            row(after, Slot::Message { chat_id: id, seq }) == #[trigger] row(
                db,
                Slot::Message { chat_id: id, seq },
            ),
    ensures
        holds_transcript(after, id, chat) == holds_transcript(db, id, chat),
{
    assert forall|seq: nat|
        #![trigger after.contains_key(Slot::Message { chat_id: id, seq })]
        #![trigger db.contains_key(Slot::Message { chat_id: id, seq })]
        after.contains_key(Slot::Message { chat_id: id, seq }) == db.contains_key(
            Slot::Message { chat_id: id, seq },
        ) && (db.contains_key(Slot::Message { chat_id: id, seq }) ==> after[Slot::Message {
            chat_id: id,
            seq,
        }] == db[Slot::Message { chat_id: id, seq }]) by {
        assert(row(after, Slot::Message { chat_id: id, seq }) == row(
            db,
            Slot::Message { chat_id: id, seq },
        ));
    }
    if holds_transcript(db, id, chat) {
        assert(holds_messages(after, id, chat.messages));
    }
    if holds_transcript(after, id, chat) {
        assert forall|seq: nat| #[trigger]
            db.contains_key(Slot::Message { chat_id: id, seq }) == (seq < chat.messages.len()) && (
            seq < chat.messages.len() ==> db[Slot::Message { chat_id: id, seq }]
                == chat.messages[seq as int]) by {
            assert(after.contains_key(Slot::Message { chat_id: id, seq }) == (seq
                < chat.messages.len()));
        }
    }
}

// Chats.

/// A chat that was saved is held as it was saved, whatever was held under its id; every
/// other chat is what it was, and so are the documents and the flow runs.
pub proof fn law_chat_saved_is_held(db: Database, id: Seq<char>, chat: Transcript)
    ensures
        holds_transcript(with_transcript(db, id, chat), id, chat),
        forall|first: Transcript| #[trigger]
            with_transcript(with_transcript(db, id, first), id, chat) == with_transcript(
                db,
                id,
                chat,
            ),
        forall|other: Seq<char>, c: Transcript|
            other != id ==> #[trigger] holds_transcript(with_transcript(db, id, chat), other, c)
                == holds_transcript(db, other, c),
        forall|name: Seq<char>| #[trigger]
            document(with_transcript(db, id, chat), name) == document(db, name),
        forall|other: Seq<char>| #[trigger]
            flow_run(with_transcript(db, id, chat), other) == flow_run(db, other),
{
    let after = with_transcript(db, id, chat);
    assert forall|first: Transcript| #[trigger]
        with_transcript(with_transcript(db, id, first), id, chat) == after by {
        assert(with_transcript(with_transcript(db, id, first), id, chat) =~= after);
    }
    assert forall|other: Seq<char>, c: Transcript| other != id implies #[trigger]
        holds_transcript(after, other, c) == holds_transcript(db, other, c) by {
        lemma_same_transcript(db, after, other, c);
    }
}

/// A chat that was deleted holds nothing, saved before or not; every other chat is what
/// it was, and so are the documents and the flow runs.
pub proof fn law_chat_deleted_is_gone(db: Database, id: Seq<char>, chat: Transcript)
    ensures
        row(without_transcript(db, id), Slot::Chat { id }) is None,
        holds_messages(without_transcript(db, id), id, Seq::empty()),
        without_transcript(with_transcript(db, id, chat), id) == without_transcript(db, id),
        with_transcript(without_transcript(db, id), id, chat) == with_transcript(db, id, chat),
        forall|other: Seq<char>, c: Transcript|
            other != id ==> #[trigger] holds_transcript(without_transcript(db, id), other, c)
                == holds_transcript(db, other, c),
        forall|name: Seq<char>| #[trigger]
            document(without_transcript(db, id), name) == document(db, name),
        forall|other: Seq<char>| #[trigger]
            flow_run(without_transcript(db, id), other) == flow_run(db, other),
{
    let after = without_transcript(db, id);
    assert(without_transcript(with_transcript(db, id, chat), id) =~= after);
    assert(with_transcript(after, id, chat) =~= with_transcript(db, id, chat));
    assert forall|other: Seq<char>, c: Transcript| other != id implies #[trigger]
        holds_transcript(after, other, c) == holds_transcript(db, other, c) by {
        lemma_same_transcript(db, after, other, c);
    }
}

/// Where the messages that are stored for a chat are its first ones, adding the rest
/// leaves what saving it as a whole leaves.
pub proof fn law_append_is_save(db: Database, id: Seq<char>, chat: Transcript, persisted: nat)
    requires
        persisted <= chat.messages.len(),
        holds_messages(db, id, chat.messages.take(persisted as int)),
    ensures
        with_messages(db, id, chat, persisted, chat.messages.len()) == with_transcript(
            db,
            id,
            chat,
        ),
{
    let appended = with_messages(db, id, chat, persisted, chat.messages.len());
    let saved = with_transcript(db, id, chat);
    assert forall|slot: Slot| #[trigger] appended.contains_key(slot) == saved.contains_key(slot) && (
    saved.contains_key(slot) ==> appended[slot] == saved[slot]) by {
        if is_message_from(slot, id, 0) {
            let seq = slot->seq;
            assert(slot == (Slot::Message { chat_id: id, seq }));
            assert(db.contains_key(Slot::Message { chat_id: id, seq }) == (seq < persisted));
        }
    }
    assert(appended =~= saved);
}

/// The messages of a chat come back in the order in which they were saved, each once.
pub proof fn law_messages_come_in_order(
    db: Database,
    id: Seq<char>,
    messages: Seq<Seq<char>>,
    bodies: Seq<Seq<char>>,
)
    requires
        holds_messages(db, id, messages),
        lists_messages(db, id, bodies),
    ensures
        bodies == messages,
{
    let seqs = choose|seqs: Seq<nat>| lists_messages_at(db, id, seqs, bodies);
    assert forall|k: nat| k < messages.len() implies #[trigger] seqs.contains(k) by {
        assert(db.contains_key(Slot::Message { chat_id: id, seq: k }));
    }
    lemma_counts_up(seqs, messages.len());
    assert forall|i: int| 0 <= i < bodies.len() implies bodies[i] == messages[i] by {
        assert(seqs[i] == i);
        assert(db.contains_key(Slot::Message { chat_id: id, seq: i as nat }));
    }
    assert(bodies =~= messages);
}

/// Numbers that rise and are those below `n` count up from zero.
proof fn lemma_counts_up(seqs: Seq<nat>, n: nat)
    requires
        forall|i: int, j: int|
            #![trigger seqs[i], seqs[j]]
            0 <= i < j < seqs.len() ==> seqs[i] < seqs[j],
        forall|i: int| 0 <= i < seqs.len() ==> #[trigger] seqs[i] < n,
        forall|k: nat| k < n ==> #[trigger] seqs.contains(k),
    ensures
        seqs.len() == n,
        forall|i: int| 0 <= i < seqs.len() ==> #[trigger] seqs[i] == i,
    decreases n,
{
    if n == 0 {
        if seqs.len() > 0 {
            assert(seqs[0] < n);
        }
    } else {
        let top = (n - 1) as nat;
        assert(seqs.contains(top));
        let at = choose|i: int| 0 <= i < seqs.len() && seqs[i] == top;
        if at < seqs.len() - 1 {
            assert(seqs[at] < seqs[seqs.len() - 1]);
        }
        let init = seqs.drop_last();
        assert forall|i: int| 0 <= i < init.len() implies #[trigger] init[i] < top by {
            assert(seqs[i] < seqs[seqs.len() - 1]);
        }
        assert forall|k: nat| k < top implies #[trigger] init.contains(k) by {
            assert(seqs.contains(k));
            let j = choose|j: int| 0 <= j < seqs.len() && seqs[j] == k;
            assert(init[j] == k);
        }
        assert forall|i: int, j: int|
            #![trigger init[i], init[j]]
            0 <= i < j < init.len() implies init[i] < init[j] by {
            assert(seqs[i] < seqs[j]);
        }
        lemma_counts_up(init, top);
        assert forall|i: int| 0 <= i < seqs.len() implies #[trigger] seqs[i] == i by {
            if i < init.len() {
                assert(init[i] == i);
            }
        }
    }
}

/// Every item of the array `messages` of a chat is stored, in its order, and nothing else
/// is: a chat whose text has no such array is stored with no message. The rest of the chat
/// is stored whole.
pub proof fn law_every_message_is_taken_out(text: Seq<char>, chat: Transcript)
    requires
        splits(text, chat),
    ensures
        object_of(text) is Some,
        object_of(text).unwrap().contains_key("messages"@) && array_of(
            object_of(text).unwrap()["messages"@],
        ) is Some ==> Some(chat.messages) == array_of(object_of(text).unwrap()["messages"@]),
        !object_of(text).unwrap().contains_key("messages"@) || array_of(
            object_of(text).unwrap()["messages"@],
        ) is None ==> chat.messages.len() == 0,
        chat.messages.len() == 0 ==> chat.meta == text,
        chat.messages.len() > 0 ==> object_of(chat.meta) == Some(
            object_of(text).unwrap().remove("messages"@),
        ),
{
}

/// Saving the text of a chat leaves each item of its array `messages` in the row of its
/// number, and no other message of that chat.
pub proof fn law_every_message_has_its_row(
    db: Database,
    id: Seq<char>,
    text: Seq<char>,
    chat: Transcript,
    seq: nat,
)
    requires
        splits(text, chat),
        object_of(text).unwrap().contains_key("messages"@),
        array_of(object_of(text).unwrap()["messages"@]) is Some,
    ensures
        row(with_transcript(db, id, chat), Slot::Message { chat_id: id, seq }) == (if seq
            < array_of(object_of(text).unwrap()["messages"@]).unwrap().len() {
            Some(array_of(object_of(text).unwrap()["messages"@]).unwrap()[seq as int])
        } else {
            None
        }),
{
    law_every_message_is_taken_out(text, chat);
    law_chat_saved_is_held(db, id, chat);
    let after = with_transcript(db, id, chat);
    assert(after.contains_key(Slot::Message { chat_id: id, seq }) == (seq < chat.messages.len()));
}

/// What is put together has every message, in order, in the array `messages`, and every
/// other member of the rest of the chat. A chat without messages is what is stored.
pub proof fn law_every_part_is_put_together(chat: Transcript, text: Seq<char>)
    requires
        joins(chat, text),
    ensures
        chat.messages.len() == 0 ==> text == chat.meta,
        chat.messages.len() > 0 ==> {
            let object = object_of(text).unwrap();
            let rest = object_of(chat.meta).unwrap();
            let items = array_of(object["messages"@]).unwrap();
            &&& object_of(text) is Some
            &&& object_of(chat.meta) is Some
            &&& object.contains_key("messages"@)
            &&& array_of(object["messages"@]) is Some
            &&& items.len() == chat.messages.len()
            &&& forall|i: int|
                0 <= i < items.len() ==> #[trigger] items[i] == value_of(
                    chat.messages[i],
                ).unwrap()
            &&& forall|name: Seq<char>|
                name != "messages"@ ==> #[trigger] object.contains_key(name) == rest.contains_key(
                    name,
                ) && (rest.contains_key(name) ==> object[name] == rest[name])
        },
{
    if chat.messages.len() > 0 {
        let object = object_of(text).unwrap();
        let rest = object_of(chat.meta).unwrap();
        assert forall|name: Seq<char>| name != "messages"@ implies #[trigger] object.contains_key(
            name,
        ) == rest.contains_key(name) && (rest.contains_key(name) ==> object[name]
            == rest[name]) by {
            assert(object.remove("messages"@).contains_key(name) == rest.remove(
                "messages"@,
            ).contains_key(name));
            assert(object.remove("messages"@)[name] == rest.remove("messages"@)[name]);
        }
    }
}

/// The parts of a chat can be put together unless it has messages and one of them is no
/// JSON value, or the rest of the chat is no object.
pub proof fn law_parts_that_cannot_be_put_together(chat: Transcript)
    ensures
        !can_join(chat) <==> chat.messages.len() > 0 && (object_of(chat.meta) is None || exists|
            i: int,
        |
            0 <= i < chat.messages.len() && value_of(#[trigger] chat.messages[i]) is None),
{
}

/// What stands for a chat has its texts, whole and in order.
pub proof fn law_encoded_chat_is_whole(chat: EncodedChat)
    ensures
        chat@.meta == chat.meta@,
        chat@.messages.len() == chat.messages.len(),
        forall|i: int|
            0 <= i < chat.messages.len() ==> #[trigger] chat@.messages[i] == chat.messages[i]@,
{
}

/// Adding messages from a position on sets the text of the chat and those messages, and no
/// other row.
pub proof fn law_append_sets_only_new_rows(
    db: Database,
    id: Seq<char>,
    chat: Transcript,
    from: nat,
    slot: Slot,
)
    requires
        from <= chat.messages.len(),
    ensures
        row(with_messages(db, id, chat, from, chat.messages.len()), slot) == match slot {
            Slot::Chat { id: other } => if other == id {
                Some(chat.meta)
            } else {
                row(db, slot)
            },
            Slot::Message { chat_id, seq } => if chat_id == id && from <= seq
                < chat.messages.len() {
                Some(chat.messages[seq as int])
            } else {
                row(db, slot)
            },
            _ => row(db, slot),
        },
{
}

/// A chat that was taken apart can be put together again, and its text then has the same
/// members as before, with the same values, and the same messages in the same order.
pub proof fn law_chat_text_comes_back(text: Seq<char>, chat: Transcript, back: Seq<char>)
    requires
        splits(text, chat),
        joins(chat, back),
    ensures
        can_join(chat),
        object_of(back) is Some,
        object_of(back).unwrap().dom() == object_of(text).unwrap().dom(),
        object_of(back).unwrap().remove("messages"@) == object_of(text).unwrap().remove(
            "messages"@,
        ),
        messages_in(object_of(back).unwrap()) == messages_in(object_of(text).unwrap()),
        object_of(text).unwrap().contains_key("messages"@) ==> array_of(
            object_of(back).unwrap()["messages"@],
        ) == array_of(object_of(text).unwrap()["messages"@]),
        chat.messages.len() == 0 ==> back == text,
{
    let object = object_of(text).unwrap();
    if chat.messages.len() > 0 {
        let again = object_of(back).unwrap();
        let rest = object.remove("messages"@);
        assert(rest.remove("messages"@) =~= rest);
        assert(chat.messages.map_values(|m: Seq<char>| value_of(m).unwrap()) =~= chat.messages);
        assert(again.dom() =~= rest.dom().insert("messages"@)) by {
            assert(again.remove("messages"@).dom() == rest.dom());
        }
        assert(object.dom() =~= rest.dom().insert("messages"@));
    }
}

/// A chat is stored with each message in a row of its own, and what is read back from
/// those rows is put together into a chat with the same messages and members: reading a
/// chat gives back what was saved.
pub proof fn law_chat_text_saved_is_read_back(
    db: Database,
    id: Seq<char>,
    text: Seq<char>,
    chat: Transcript,
    read: Transcript,
    back: Seq<char>,
)
    requires
        splits(text, chat),
        row(with_transcript(db, id, chat), Slot::Chat { id }) == Some(read.meta),
        lists_messages(with_transcript(db, id, chat), id, read.messages),
        joins(read, back),
    ensures
        read == chat,
        can_join(read),
        object_of(back) is Some,
        object_of(back).unwrap().dom() == object_of(text).unwrap().dom(),
        object_of(back).unwrap().remove("messages"@) == object_of(text).unwrap().remove(
            "messages"@,
        ),
        messages_in(object_of(back).unwrap()) == messages_in(object_of(text).unwrap()),
        object_of(text).unwrap().contains_key("messages"@) ==> array_of(
            object_of(back).unwrap()["messages"@],
        ) == array_of(object_of(text).unwrap()["messages"@]),
{
    law_chat_saved_is_held(db, id, chat);
    law_messages_come_in_order(with_transcript(db, id, chat), id, chat.messages, read.messages);
    assert(read =~= chat);
    law_chat_text_comes_back(text, chat, back);
}

/// A value that some row has is among the values that are kept.
proof fn lemma_item_is_kept<T>(rows: Seq<Fetched<T>>, i: int, value: T)
    requires
        0 <= i < rows.len(),
        rows[i].item() == Some(value),
    ensures
        items_of(rows).contains(value),
    decreases rows.len(),
{
    let init = rows.drop_last();
    if i == rows.len() - 1 {
        assert(items_of(rows) == items_of(init) + seq![value]);
        assert(items_of(rows)[items_of(init).len() as int] == value);
    } else {
        assert(init[i] == rows[i]);
        lemma_item_is_kept(init, i, value);
        let k = choose|k: int| 0 <= k < items_of(init).len() && items_of(init)[k] == value;
        assert(items_of(rows)[k] == value);
    }
}

/// No more values are kept than there are rows, and none is lost where every row has
/// one.
pub proof fn law_nothing_well_formed_is_left_out<T>(rows: Seq<Fetched<T>>)
    ensures
        items_of(rows).len() <= rows.len(),
        (forall|i: int| 0 <= i < rows.len() ==> (#[trigger] rows[i]).item() is Some) ==> items_of(
            rows,
        ).len() == rows.len(),
    decreases rows.len(),
{
    if rows.len() > 0 {
        let init = rows.drop_last();
        law_nothing_well_formed_is_left_out(init);
        if forall|i: int| 0 <= i < rows.len() ==> (#[trigger] rows[i]).item() is Some {
            assert forall|i: int| 0 <= i < init.len() implies (#[trigger] init[i]).item() is Some by {
                assert(init[i] == rows[i]);
            }
            assert(rows[rows.len() - 1].item() is Some);
        }
    }
}

/// Every row is accounted for: it gives a value or a warning, not both.
pub proof fn law_every_row_is_accounted_for<T>(rows: Seq<Fetched<T>>, area: Area)
    ensures
        items_of(rows).len() + warnings_of(rows, area).len() == rows.len(),
    decreases rows.len(),
{
    if rows.len() > 0 {
        law_every_row_is_accounted_for(rows.drop_last(), area);
    }
}

/// A chat that was saved, and that can be decoded, is among those that are loaded.
pub proof fn law_chat_saved_is_loaded<T>(
    db: Database,
    id: Seq<char>,
    chat: Transcript,
    decode: spec_fn(Transcript) -> Option<T>,
    listing: Seq<(Seq<char>, Seq<char>)>,
    read: Seq<Transcript>,
    rows: Seq<Fetched<T>>,
)
    requires
        fetches_chats(with_transcript(db, id, chat), decode, listing, read, rows),
        decode(chat) is Some,
    ensures
        items_of(rows).contains(decode(chat).unwrap()),
{
    let after = with_transcript(db, id, chat);
    law_chat_saved_is_held(db, id, chat);
    let slot_of = |id: Seq<char>| Slot::Chat { id };
    assert(after.contains_key(slot_of(id)));
    let i = choose|i: int| 0 <= i < listing.len() && #[trigger] listing[i].0 == id;
    assert(after[slot_of(listing[i].0)] == listing[i].1);
    law_messages_come_in_order(after, id, chat.messages, read[i].messages);
    assert(read[i] =~= chat);
    lemma_item_is_kept(rows, i, decode(chat).unwrap());
}

/// A flow run that was saved, and that can be decoded, is among those that are listed.
pub proof fn law_flow_run_saved_is_listed<T>(
    db: Database,
    id: Seq<char>,
    body: Seq<char>,
    decode: spec_fn(Seq<char>) -> Option<T>,
    listing: Seq<(Seq<char>, Seq<char>)>,
    rows: Seq<Fetched<T>>,
)
    requires
        fetches_runs(with_flow_run(db, id, body), decode, listing, rows),
        decode(body) is Some,
    ensures
        items_of(rows).contains(decode(body).unwrap()),
{
    let after = with_flow_run(db, id, body);
    let slot_of = |id: Seq<char>| Slot::Run { id };
    assert(after.contains_key(slot_of(id)));
    let i = choose|i: int| 0 <= i < listing.len() && #[trigger] listing[i].0 == id;
    assert(after[slot_of(listing[i].0)] == listing[i].1);
    lemma_item_is_kept(rows, i, decode(body).unwrap());
}

/// The ids of a listing.
pub open spec fn ids_of(listing: Seq<(Seq<char>, Seq<char>)>) -> Seq<Seq<char>> {
    listing.map_values(|r: (Seq<char>, Seq<char>)| r.0)
}

/// A listing has no id twice, and exactly the ids whose rows are there.
proof fn lemma_listing_ids(
    db: Database,
    slot_of: spec_fn(Seq<char>) -> Slot,
    listing: Seq<(Seq<char>, Seq<char>)>,
)
    requires
        lists(db, slot_of, listing),
    ensures
        ids_of(listing).no_duplicates(),
        ids_of(listing).to_set() == Set::new(|id: Seq<char>| db.contains_key(slot_of(id))),
        ids_of(listing).to_set().len() == listing.len(),
        ids_of(listing).to_set().finite(),
{
    let ids = ids_of(listing);
    assert(ids.no_duplicates()) by {
        assert forall|i: int, j: int| 0 <= i < ids.len() && 0 <= j < ids.len() && i != j implies ids[i]
            != ids[j] by {
            if i < j {
                assert(listing[i].0 != listing[j].0);
            } else {
                assert(listing[j].0 != listing[i].0);
            }
        }
    }
    ids.unique_seq_to_set();
    assert forall|id: Seq<char>| ids.to_set().contains(id) == db.contains_key(slot_of(id)) by {
        if ids.to_set().contains(id) {
            let i = choose|i: int| 0 <= i < ids.len() && ids[i] == id;
            assert(listing[i].0 == id);
        }
        if db.contains_key(slot_of(id)) {
            let i = choose|i: int| 0 <= i < listing.len() && #[trigger] listing[i].0 == id;
            assert(ids[i] == id);
        }
    }
    assert(ids.to_set() =~= Set::new(|id: Seq<char>| db.contains_key(slot_of(id))));
}

/// Where the rows of one table are as before but for that of `id`, which holds `body`, the
/// listing has one row more where `id` was not there, and as many where it was.
proof fn lemma_saved_is_listed_once(
    db: Database,
    saved: Database,
    slot_of: spec_fn(Seq<char>) -> Slot,
    id: Seq<char>,
    body: Seq<char>,
    before: Seq<(Seq<char>, Seq<char>)>,
    after: Seq<(Seq<char>, Seq<char>)>,
)
    requires
        lists(db, slot_of, before),
        lists(saved, slot_of, after),
        row(saved, slot_of(id)) == Some(body),
        forall|other: Seq<char>|
            other != id ==> #[trigger] saved.contains_key(slot_of(other)) == db.contains_key(
                slot_of(other),
            ),
    ensures
        after.len() == before.len() + (if db.contains_key(slot_of(id)) {
            0int
        } else {
            1int
        }),
        after.contains((id, body)),
{
    lemma_listing_ids(db, slot_of, before);
    lemma_listing_ids(saved, slot_of, after);
    let old_ids = ids_of(before).to_set();
    let new_ids = ids_of(after).to_set();
    assert forall|other: Seq<char>| new_ids.contains(other) == old_ids.insert(id).contains(other) by {
        assert(saved.contains_key(slot_of(other)) == (other == id || db.contains_key(
            slot_of(other),
        )));
    }
    assert(new_ids =~= old_ids.insert(id));
    assert(old_ids.contains(id) == db.contains_key(slot_of(id)));
    assert(saved.contains_key(slot_of(id)));
    let i = choose|i: int| 0 <= i < after.len() && #[trigger] after[i].0 == id;
    assert(saved[slot_of(after[i].0)] == after[i].1);
    assert(after[i] == (id, body));
}

/// Saving a chat adds one row to the listing where its id was not there, and none where
/// it was: a second save makes no duplicate.
pub proof fn law_chat_saved_is_listed_once(
    db: Database,
    id: Seq<char>,
    chat: Transcript,
    before: Seq<(Seq<char>, Seq<char>)>,
    after: Seq<(Seq<char>, Seq<char>)>,
)
    requires
        lists_chats(db, before),
        lists_chats(with_transcript(db, id, chat), after),
    ensures
        after.len() == before.len() + (if db.contains_key(Slot::Chat { id }) {
            0int
        } else {
            1int
        }),
        after.contains((id, chat.meta)),
{
    lemma_saved_is_listed_once(
        db,
        with_transcript(db, id, chat),
        |id: Seq<char>| Slot::Chat { id },
        id,
        chat.meta,
        before,
        after,
    );
}

/// Deleting a chat takes its row out of the listing, and no other.
pub proof fn law_chat_deleted_is_not_listed(
    db: Database,
    id: Seq<char>,
    before: Seq<(Seq<char>, Seq<char>)>,
    after: Seq<(Seq<char>, Seq<char>)>,
)
    requires
        lists_chats(db, before),
        lists_chats(without_transcript(db, id), after),
    ensures
        !ids_of(after).contains(id),
        after.len() == before.len() - (if db.contains_key(Slot::Chat { id }) {
            1int
        } else {
            0int
        }),
{
    let slot_of = |id: Seq<char>| Slot::Chat { id };
    let gone = without_transcript(db, id);
    lemma_listing_ids(db, slot_of, before);
    lemma_listing_ids(gone, slot_of, after);
    let old_ids = ids_of(before).to_set();
    let new_ids = ids_of(after).to_set();
    assert forall|other: Seq<char>| new_ids.contains(other) == old_ids.remove(id).contains(other) by {
        assert(gone.contains_key(slot_of(other)) == (other != id && db.contains_key(
            slot_of(other),
        )));
    }
    assert(new_ids =~= old_ids.remove(id));
    assert(old_ids.contains(id) == db.contains_key(slot_of(id)));
    assert(!new_ids.contains(id));
}

/// Saving a flow run adds one row to the listing where its id was not there, and none
/// where it was.
pub proof fn law_flow_run_saved_is_listed_once(
    db: Database,
    id: Seq<char>,
    body: Seq<char>,
    before: Seq<(Seq<char>, Seq<char>)>,
    after: Seq<(Seq<char>, Seq<char>)>,
)
    requires
        lists_runs(db, before),
        lists_runs(with_flow_run(db, id, body), after),
    ensures
        after.len() == before.len() + (if db.contains_key(Slot::Run { id }) {
            0int
        } else {
            1int
        }),
        after.contains((id, body)),
{
    lemma_saved_is_listed_once(
        db,
        with_flow_run(db, id, body),
        |id: Seq<char>| Slot::Run { id },
        id,
        body,
        before,
        after,
    );
}

// Migration.

/// Whether `owns` holds of one of the items.
pub open spec fn is_owned<A>(items: Seq<A>, owns: spec_fn(A) -> bool) -> bool {
    exists|i: int| 0 <= i < items.len() && owns(#[trigger] items[i])
}

/// Whether a row is one that a document of the files backend is stored in.
pub open spec fn is_doc_row(docs: Seq<LegacyDoc>, slot: Slot) -> bool {
    is_owned(docs, |doc: LegacyDoc| slot == (Slot::Doc { name: doc.name@ }))
}

/// Whether a row is one that a chat of the files backend is stored in.
pub open spec fn is_chat_row(chats: Seq<LegacyChat>, slot: Slot) -> bool {
    is_owned(
        chats,
        |chat: LegacyChat|
            slot == (Slot::Chat { id: chat.id@ }) || is_message_from(slot, chat.id@, 0),
    )
}

/// Whether a row is one that a flow run of the files backend is stored in.
pub open spec fn is_run_row(runs: Seq<LegacyRun>, slot: Slot) -> bool {
    is_owned(runs, |run: LegacyRun| slot == (Slot::Run { id: run.id@ }))
}

/// Whether a row is one of the marks of a migration.
pub open spec fn is_mark(slot: Slot) -> bool {
    slot == (Slot::Meta { key: "schema_version"@ }) || slot == (Slot::Meta {
        key: "migrated_from_files"@,
    })
}

/// Where an item sets its own rows, whatever was there, and leaves every other row, storing
/// items one after the other sets the rows that belong to one of them, and leaves the rest.
proof fn lemma_rows_of_each<A>(
    db: Database,
    other: Database,
    items: Seq<A>,
    store: spec_fn(Database, A) -> Database,
    owns: spec_fn(A) -> bool,
    slot: Slot,
)
    requires
        forall|d: Database, e: Database, item: A|
            #![trigger store(d, item), store(e, item)]
            owns(item) ==> row(store(d, item), slot) == row(store(e, item), slot),
        forall|d: Database, item: A|
            #![trigger store(d, item)]
            !owns(item) ==> row(store(d, item), slot) == row(d, slot),
    ensures
        is_owned(items, owns) ==> row(with_each(db, items, store), slot) == row(
            with_each(other, items, store),
            slot,
        ),
        !is_owned(items, owns) ==> row(with_each(db, items, store), slot) == row(db, slot),
    decreases items.len(),
{
    if items.len() > 0 {
        let init = items.drop_last();
        let last = items[items.len() - 1];
        lemma_rows_of_each(db, other, init, store, owns, slot);
        if !owns(last) {
            assert(is_owned(items, owns) == is_owned(init, owns)) by {
                if is_owned(items, owns) {
                    let i = choose|i: int| 0 <= i < items.len() && owns(#[trigger] items[i]);
                    assert(owns(init[i]));
                }
                if is_owned(init, owns) {
                    let i = choose|i: int| 0 <= i < init.len() && owns(#[trigger] init[i]);
                    assert(owns(items[i]));
                }
            }
        }
    }
}

/// A row is left as the last item that owns it sets it.
proof fn lemma_last_of_each<A>(
    db: Database,
    items: Seq<A>,
    store: spec_fn(Database, A) -> Database,
    owns: spec_fn(A) -> bool,
    i: int,
    slot: Slot,
)
    requires
        0 <= i < items.len(),
        forall|j: int| i < j < items.len() ==> !owns(#[trigger] items[j]),
        forall|d: Database, item: A|
            #![trigger store(d, item)]
            !owns(item) ==> row(store(d, item), slot) == row(d, slot),
    ensures
        row(with_each(db, items, store), slot) == row(
            store(with_each(db, items.take(i), store), items[i]),
            slot,
        ),
    decreases items.len(),
{
    let init = items.drop_last();
    if i < items.len() - 1 {
        assert(forall|j: int| 0 <= j < init.len() ==> #[trigger] init[j] == items[j]);
        lemma_last_of_each(db, init, store, owns, i, slot);
        assert(init.take(i) =~= items.take(i));
        assert(!owns(items[items.len() - 1]));
    } else {
        assert(init =~= items.take(i));
    }
}

proof fn lemma_docs_rows(db: Database, other: Database, docs: Seq<LegacyDoc>, slot: Slot)
    ensures
        is_doc_row(docs, slot) ==> row(with_docs(db, docs), slot) == row(
            with_docs(other, docs),
            slot,
        ),
        !is_doc_row(docs, slot) ==> row(with_docs(db, docs), slot) == row(db, slot),
{
    lemma_rows_of_each(
        db,
        other,
        docs,
        |db: Database, doc: LegacyDoc| with_document(db, doc.name@, doc.body@),
        |doc: LegacyDoc| slot == (Slot::Doc { name: doc.name@ }),
        slot,
    );
}

proof fn lemma_chats_rows(db: Database, other: Database, chats: Seq<LegacyChat>, slot: Slot)
    ensures
        is_chat_row(chats, slot) ==> row(with_chats(db, chats), slot) == row(
            with_chats(other, chats),
            slot,
        ),
        !is_chat_row(chats, slot) ==> row(with_chats(db, chats), slot) == row(db, slot),
{
    lemma_rows_of_each(
        db,
        other,
        chats,
        |db: Database, chat: LegacyChat| with_transcript(db, chat.id@, chat.chat@),
        |chat: LegacyChat|
            slot == (Slot::Chat { id: chat.id@ }) || is_message_from(slot, chat.id@, 0),
        slot,
    );
}

proof fn lemma_runs_rows(db: Database, other: Database, runs: Seq<LegacyRun>, slot: Slot)
    ensures
        is_run_row(runs, slot) ==> row(with_flow_runs(db, runs), slot) == row(
            with_flow_runs(other, runs),
            slot,
        ),
        !is_run_row(runs, slot) ==> row(with_flow_runs(db, runs), slot) == row(db, slot),
{
    lemma_rows_of_each(
        db,
        other,
        runs,
        |db: Database, run: LegacyRun| with_flow_run(db, run.id@, run.body@),
        |run: LegacyRun| slot == (Slot::Run { id: run.id@ }),
        slot,
    );
}

proof fn lemma_migrated_rows(db: Database, other: Database, legacy: LegacyState, slot: Slot)
    ensures
        is_doc_row(legacy.docs@, slot) || is_chat_row(legacy.chats@, slot) || is_run_row(
            legacy.flow_runs@,
            slot,
        ) || is_mark(slot) ==> row(migrated(db, legacy), slot) == row(
            migrated(other, legacy),
            slot,
        ),
        !is_doc_row(legacy.docs@, slot) && !is_chat_row(legacy.chats@, slot) && !is_run_row(
            legacy.flow_runs@,
            slot,
        ) && !is_mark(slot) ==> row(migrated(db, legacy), slot) == row(db, slot),
{
    let docs = with_docs(db, legacy.docs@);
    let other_docs = with_docs(other, legacy.docs@);
    let chats = with_chats(docs, legacy.chats@);
    let other_chats = with_chats(other_docs, legacy.chats@);
    lemma_docs_rows(db, other, legacy.docs@, slot);
    lemma_docs_rows(other, db, legacy.docs@, slot);
    lemma_chats_rows(docs, other_docs, legacy.chats@, slot);
    lemma_chats_rows(other_docs, docs, legacy.chats@, slot);
    lemma_runs_rows(chats, other_chats, legacy.flow_runs@, slot);
    lemma_runs_rows(other_chats, chats, legacy.flow_runs@, slot);
}

/// A migration may be run again: the second one changes nothing.
pub proof fn law_migration_may_be_rerun(db: Database, legacy: LegacyState)
    ensures
        migrated(migrated(db, legacy), legacy) == migrated(db, legacy),
{
    let once = migrated(db, legacy);
    let twice = migrated(once, legacy);
    assert forall|slot: Slot| row(once, slot) == row(twice, slot) by {
        lemma_migrated_rows(db, once, legacy, slot);
        lemma_migrated_rows(once, db, legacy, slot);
    }
    lemma_same_rows(twice, once);
}

/// A migration changes no row but those that hold what it carries over, and its marks.
pub proof fn law_migration_keeps_the_rest(db: Database, legacy: LegacyState, slot: Slot)
    requires
        !is_doc_row(legacy.docs@, slot),
        !is_chat_row(legacy.chats@, slot),
        !is_run_row(legacy.flow_runs@, slot),
        !is_mark(slot),
    ensures
        row(migrated(db, legacy), slot) == row(db, slot),
{
    lemma_migrated_rows(db, db, legacy, slot);
}

/// A migration leaves its two marks, whatever is carried over.
pub proof fn law_migration_leaves_its_marks(db: Database, legacy: LegacyState)
    ensures
        row(migrated(db, legacy), Slot::Meta { key: "schema_version"@ }) == Some("1"@),
        row(migrated(db, legacy), Slot::Meta { key: "migrated_from_files"@ }) == Some("1"@),
{
    reveal_strlit("schema_version");
    reveal_strlit("migrated_from_files");
    assert("schema_version"@.len() == 14);
    assert("migrated_from_files"@.len() == 19);
}

/// A document is carried over word for word, where no later one has its name.
pub proof fn law_migrated_document_is_found(db: Database, legacy: LegacyState, i: int)
    requires
        0 <= i < legacy.docs.len(),
        forall|j: int| i < j < legacy.docs.len() ==> (#[trigger] legacy.docs[j]).name@
            != legacy.docs[i].name@,
    ensures
        document(migrated(db, legacy), legacy.docs[i].name@) == Some(legacy.docs[i].body@),
{
    let slot = Slot::Doc { name: legacy.docs[i].name@ };
    let docs = with_docs(db, legacy.docs@);
    lemma_last_of_each(
        db,
        legacy.docs@,
        |db: Database, doc: LegacyDoc| with_document(db, doc.name@, doc.body@),
        |doc: LegacyDoc| slot == (Slot::Doc { name: doc.name@ }),
        i,
        slot,
    );
    lemma_chats_rows(docs, docs, legacy.chats@, slot);
    lemma_runs_rows(
        with_chats(docs, legacy.chats@),
        docs,
        legacy.flow_runs@,
        slot,
    );
}

/// A chat is carried over with all its messages in order, where no later one has its id.
pub proof fn law_migrated_chat_is_held(db: Database, legacy: LegacyState, i: int)
    requires
        0 <= i < legacy.chats.len(),
        forall|j: int| i < j < legacy.chats.len() ==> (#[trigger] legacy.chats[j]).id@
            != legacy.chats[i].id@,
    ensures
        holds_transcript(migrated(db, legacy), legacy.chats[i].id@, legacy.chats[i].chat@),
{
    let id = legacy.chats[i].id@;
    let docs = with_docs(db, legacy.docs@);
    let chats = with_chats(docs, legacy.chats@);
    let after = migrated(db, legacy);
    lemma_last_chat(docs, legacy.chats@, i);
    lemma_runs_rows(chats, chats, legacy.flow_runs@, Slot::Chat { id });
    assert forall|seq: nat|
        row(after, Slot::Message { chat_id: id, seq }) == #[trigger] row(
            chats,
            Slot::Message { chat_id: id, seq },
        ) by {
        lemma_runs_rows(chats, chats, legacy.flow_runs@, Slot::Message { chat_id: id, seq });
    }
    lemma_same_transcript(chats, after, id, legacy.chats[i].chat@);
}

proof fn lemma_last_chat(db: Database, chats: Seq<LegacyChat>, i: int)
    requires
        0 <= i < chats.len(),
        forall|j: int| i < j < chats.len() ==> (#[trigger] chats[j]).id@ != chats[i].id@,
    ensures
        holds_transcript(with_chats(db, chats), chats[i].id@, chats[i].chat@),
{
    let id = chats[i].id@;
    let store = |db: Database, chat: LegacyChat| with_transcript(db, chat.id@, chat.chat@);
    let before = with_each(db, chats.take(i), store);
    let owns = |chat: LegacyChat| chat.id@ == id;
    lemma_last_of_each(db, chats, store, owns, i, Slot::Chat { id });
    assert forall|seq: nat|
        row(with_chats(db, chats), Slot::Message { chat_id: id, seq }) == #[trigger] row(
            with_transcript(before, id, chats[i].chat@),
            Slot::Message { chat_id: id, seq },
        ) by {
        lemma_last_of_each(db, chats, store, owns, i, Slot::Message { chat_id: id, seq });
    }
    law_chat_saved_is_held(before, id, chats[i].chat@);
    lemma_same_transcript(
        with_transcript(before, id, chats[i].chat@),
        with_chats(db, chats),
        id,
        chats[i].chat@,
    );
}

/// A flow run is carried over word for word, where no later one has its id.
pub proof fn law_migrated_flow_run_is_found(db: Database, legacy: LegacyState, i: int)
    requires
        0 <= i < legacy.flow_runs.len(),
        forall|j: int| i < j < legacy.flow_runs.len() ==> (#[trigger] legacy.flow_runs[j]).id@
            != legacy.flow_runs[i].id@,
    ensures
        flow_run(migrated(db, legacy), legacy.flow_runs[i].id@) == Some(
            legacy.flow_runs[i].body@,
        ),
{
    let slot = Slot::Run { id: legacy.flow_runs[i].id@ };
    lemma_last_of_each(
        with_chats(with_docs(db, legacy.docs@), legacy.chats@),
        legacy.flow_runs@,
        |db: Database, run: LegacyRun| with_flow_run(db, run.id@, run.body@),
        |run: LegacyRun| slot == (Slot::Run { id: run.id@ }),
        i,
        slot,
    );
}

// Backends and files.

/// All state is in one place: whichever backend is in use, every area ends up in it.
pub proof fn law_state_is_in_one_place(backend: Backend, area: Area)
    ensures
        backend.keeps(area) == backend,
{
}

/// No two areas share a document.
pub proof fn law_areas_have_documents_of_their_own(area: Area, other: Area)
    requires
        area.document_name() is Some,
        area.document_name() == other.document_name(),
    ensures
        area == other,
{
    reveal_strlit("scheduled_tasks");
    reveal_strlit("keys");
    reveal_strlit("gateway_channels");
    reveal_strlit("integration_packs");
    assert("scheduled_tasks"@.len() == 15);
    assert("keys"@.len() == 4);
    assert("gateway_channels"@.len() == 16);
    assert("integration_packs"@.len() == 17);
}

/// The database is what is used where the setting reads `sqlite`, word for word, and files
/// are used otherwise, be it set or not.
pub proof fn law_only_one_word_asks_for_the_database(setting: Option<Seq<char>>)
    ensures
        requested_by(setting) == Backend::Sqlite <==> setting is Some && setting.unwrap()
            == "sqlite"@,
{
}

/// The areas that are kept as one document are answered for by the files backend; for the
/// others it is the backend in use.
pub proof fn law_areas_are_served(backend: Backend, area: Area)
    ensures
        backend.serves(area) == match area {
            Area::Scheduled | Area::Keys | Area::Gateway | Area::Packs => Backend::Files,
            Area::Chats | Area::FlowRuns | Area::Docs => backend,
        },
        area.document_name() == match area {
            Area::Scheduled => Some("scheduled_tasks"@),
            Area::Keys => Some("keys"@),
            Area::Gateway => Some("gateway_channels"@),
            Area::Packs => Some("integration_packs"@),
            Area::Chats | Area::FlowRuns | Area::Docs => None,
        },
{
}

/// The file of an id is named by the id, whole, and the extension. A name has the extension
/// where it is the file name of an id that is not empty. What gathers a new content lies
/// beside the file, under its name and one more extension.
pub proof fn law_files_are_named_by_their_ids(folder: Folder, id: Seq<char>, place: Place)
    ensures
        json_place(folder, id).folder == folder,
        json_place(folder, id).name == id + ".json"@,
        is_json_name(place.name) <==> exists|own: Seq<char>|
            own.len() > 0 && place.name == #[trigger] json_name(own),
        forall|own: Seq<char>| #[trigger] json_name(own) == own + ".json"@,
        scratch(place).folder == place.folder,
        scratch(place).name == place.name + ".tmp"@,
{
    if is_json_name(place.name) {
        lemma_id_of(place.name);
        assert(place.name == json_name(id_of(place.name)));
    }
    if exists|own: Seq<char>| own.len() > 0 && place.name == #[trigger] json_name(own) {
        let own = choose|own: Seq<char>|
            own.len() > 0 && place.name == #[trigger] json_name(own);
        lemma_json_name(own);
    }
}

/// The chat files and the run files have a folder each; documents lie in the data directory
/// itself.
pub proof fn law_folders_have_their_names(folder: Folder)
    ensures
        folder.name_text() == match folder {
            Folder::Data => None,
            Folder::Chats => Some("chats"@),
            Folder::Runs => Some("runs"@),
        },
{
}

/// A file that is written under an id has the whole body, one that is removed is gone, and
/// every other file is as it was, in this folder or another.
pub proof fn law_file_written_has_its_body(
    disk: Disk,
    folder: Folder,
    id: Seq<char>,
    body: Seq<char>,
    other: Place,
)
    ensures
        content(with_json_file(disk, folder, id, body), other) == (if other.folder == folder
            && other.name == id + ".json"@ {
            Some(body)
        } else {
            content(disk, other)
        }),
        content(without_json_file(disk, folder, id), other) == (if other.folder == folder
            && other.name == id + ".json"@ {
            None
        } else {
            content(disk, other)
        }),
{
}

/// A chat file that was saved is among the files that are read, with what was saved,
/// where the folder can be listed. An empty id is left out: a name that is an extension
/// only is passed over.
pub proof fn law_chat_file_saved_is_read<P>(
    disk: Disk,
    id: Seq<char>,
    body: Seq<char>,
    listing: Seq<Option<DirEntry<P>>>,
)
    requires
        id.len() > 0,
        lists_dir(with_json_file(disk, Folder::Chats, id, body), Folder::Chats, listing),
    ensures
        exists|k: int|
            0 <= k < json_entries_of(listing).len() && (#[trigger] json_entries_of(
                listing,
            )[k]).name@ == json_name(id),
        content(
            with_json_file(disk, Folder::Chats, id, body),
            json_place(Folder::Chats, id),
        ) == Some(body),
{
    lemma_json_name(id);
    let name = json_name(id);
    let saved = with_json_file(disk, Folder::Chats, id, body);
    assert(saved.contains_key(Place { folder: Folder::Chats, name }));
    let i = choose|i: int|
        0 <= i < listing.len() && (#[trigger] listing[i]) is Some && listing[i]->0.name@ == name;
    lemma_json_entry_is_kept(listing, i);
    let entries = json_entries_of(listing);
    let k = choose|k: int| 0 <= k < entries.len() && entries[k] == listing[i]->0;
    assert(json_entries_of(listing)[k].name@ == name);
}

/// A file name gives its id back, and has the extension where the id is not empty.
proof fn lemma_json_name(id: Seq<char>)
    ensures
        json_name(id).len() == id.len() + 5,
        id_of(json_name(id)) == id,
        id.len() > 0 ==> is_json_name(json_name(id)),
{
    reveal_strlit(".json");
    let name = json_name(id);
    assert(name.skip(name.len() - 5) =~= ".json"@);
    assert(name.take(name.len() - 5) =~= id);
}

/// The id that a file name was made from.
pub open spec fn id_of(name: Seq<char>) -> Seq<char> {
    name.take(name.len() - 5)
}

/// Every file that is read is accounted for: it gives a value or a warning, not both.
pub proof fn law_every_file_is_accounted_for<T>(files: Seq<FileRead<T>>, area: Area)
    ensures
        parsed_of(files).len() + complaints_of(files, area).len() == files.len(),
    decreases files.len(),
{
    if files.len() > 0 {
        law_every_file_is_accounted_for(files.drop_last(), area);
    }
}

/// Saving or deleting a chat file leaves the files of all other chats as they are, and a
/// file that was deleted is gone.
pub proof fn law_chat_files_are_apart(
    disk: Disk,
    id: Seq<char>,
    other: Seq<char>,
    body: Seq<char>,
)
    ensures
        id != other ==> content(
            with_json_file(disk, Folder::Chats, id, body),
            json_place(Folder::Chats, other),
        ) == content(disk, json_place(Folder::Chats, other)),
        id != other ==> content(
            without_json_file(disk, Folder::Chats, id),
            json_place(Folder::Chats, other),
        ) == content(disk, json_place(Folder::Chats, other)),
        content(without_json_file(disk, Folder::Chats, id), json_place(Folder::Chats, id)) is None,
{
    lemma_json_name(id);
    lemma_json_name(other);
}

/// What gathers the new content of a document is neither a document itself nor read as
/// one.
pub proof fn law_scratch_is_no_document(folder: Folder, name: Seq<char>, other: Seq<char>)
    ensures
        scratch(json_place(folder, name)) != json_place(folder, other),
        !is_json_name(scratch(json_place(folder, name)).name),
{
    reveal_strlit(".json");
    reveal_strlit(".tmp");
    let gathered = scratch(json_place(folder, name)).name;
    assert(gathered.last() == 'p');
    assert(json_name(other).last() == 'n');
    assert(gathered.len() > 5 ==> gathered.skip(gathered.len() - 5).last() == 'p');
    assert(".json"@.last() == 'n');
}

proof fn lemma_json_entry_is_kept<P>(listing: Seq<Option<DirEntry<P>>>, i: int)
    requires
        0 <= i < listing.len(),
        json_entry_of(listing[i]) is Some,
    ensures
        json_entries_of(listing).contains(listing[i]->0),
    decreases listing.len(),
{
    let init = listing.drop_last();
    let entry = listing[i]->0;
    if i == listing.len() - 1 {
        assert(json_entries_of(listing) == json_entries_of(init) + seq![entry]);
        assert(json_entries_of(listing)[json_entries_of(init).len() as int] == entry);
    } else {
        assert(init[i] == listing[i]);
        lemma_json_entry_is_kept(init, i);
        let k = choose|k: int|
            0 <= k < json_entries_of(init).len() && json_entries_of(init)[k] == entry;
        assert(json_entries_of(listing)[k] == entry);
    }
}

/// Two ids never share a file name.
pub proof fn law_ids_have_files_of_their_own(folder: Folder, id: Seq<char>, other: Seq<char>)
    requires
        json_place(folder, id) == json_place(folder, other),
    ensures
        id == other,
{
    lemma_json_name(id);
    lemma_json_name(other);
}

/// A document that was put is found in its file, with what was put, and every other
/// document is what it was.
pub proof fn law_document_file_put_is_found(
    disk: Disk,
    name: Seq<char>,
    other: Seq<char>,
    body: Seq<char>,
)
    ensures
        ({
            let place = json_place(Folder::Data, name);
            let other_place = json_place(Folder::Data, other);
            let after = with_json_file(disk.remove(scratch(place)), Folder::Data, name, body);
            &&& content(after, place) == Some(body)
            &&& name != other ==> content(after, other_place) == content(disk, other_place)
        }),
{
    law_scratch_is_no_document(Folder::Data, name, other);
    lemma_json_name(name);
    lemma_json_name(other);
}

// Listings.

/// The entries that are to be read are those of the listing with the extension, in their
/// order.
proof fn lemma_json_entries<P>(listing: Seq<Option<DirEntry<P>>>)
    requires
        forall|i: int, j: int|
            #![trigger listing[i], listing[j]]
            0 <= i < j < listing.len() && listing[i] is Some && listing[j] is Some
                ==> listing[i]->0.name@ != listing[j]->0.name@,
    ensures
        forall|k: int|
            0 <= k < json_entries_of(listing).len() ==> is_json_name(
                (#[trigger] json_entries_of(listing)[k]).name@,
            ) && listing.contains(Some(json_entries_of(listing)[k])),
        forall|k: int, l: int|
            #![trigger json_entries_of(listing)[k], json_entries_of(listing)[l]]
            0 <= k < l < json_entries_of(listing).len() ==> json_entries_of(listing)[k].name@
                != json_entries_of(listing)[l].name@,
    decreases listing.len(),
{
    if listing.len() > 0 {
        let init = listing.drop_last();
        let last = listing[listing.len() - 1];
        assert forall|i: int, j: int|
            #![trigger init[i], init[j]]
            0 <= i < j < init.len() && init[i] is Some && init[j] is Some implies init[i]->0.name@
            != init[j]->0.name@ by {
            assert(init[i] == listing[i] && init[j] == listing[j]);
        }
        lemma_json_entries(init);
        let before = json_entries_of(init);
        let entries = json_entries_of(listing);
        if json_entry_of(last) is Some {
            assert(entries =~= before.push(last->0));
        }
        assert forall|k: int| 0 <= k < entries.len() implies is_json_name(
            (#[trigger] entries[k]).name@,
        ) && listing.contains(Some(entries[k])) by {
            if k < before.len() {
                assert(entries[k] == before[k]);
                assert(init.contains(Some(before[k])));
                let i = choose|i: int| 0 <= i < init.len() && init[i] == Some(before[k]);
                assert(listing[i] == Some(entries[k]));
            } else {
                assert(listing[listing.len() - 1] == Some(entries[k]));
            }
        }
        assert forall|k: int, l: int|
            #![trigger entries[k], entries[l]]
            0 <= k < l < entries.len() implies entries[k].name@ != entries[l].name@ by {
            assert(entries[k] == before[k]);
            if l < before.len() {
                assert(entries[l] == before[l]);
            } else {
                assert(init.contains(Some(before[k])));
                let i = choose|i: int| 0 <= i < init.len() && init[i] == Some(before[k]);
                assert(listing[i] == init[i]);
                assert(listing[i]->0.name@ != listing[listing.len() - 1]->0.name@);
            }
        }
    }
}

/// A name with the extension is the file name of an id.
proof fn lemma_id_of(name: Seq<char>)
    requires
        is_json_name(name),
    ensures
        json_name(id_of(name)) == name,
        id_of(name).len() > 0,
{
    assert(id_of(name) + name.skip(name.len() - 5) =~= name);
}

/// What a folder has in files, by id. An empty id is left out: its file is passed over.
pub open spec fn stored_files(disk: Disk, folder: Folder) -> Map<Seq<char>, Seq<char>> {
    Map::new(
        |id: Seq<char>| id.len() > 0 && disk.contains_key(json_place(folder, id)),
        |id: Seq<char>| disk[json_place(folder, id)],
    )
}

/// What is listed of a folder is what its files give, each once, and nothing else.
pub proof fn law_files_listed_are_those_stored<P, T>(
    disk: Disk,
    folder: Folder,
    decode: spec_fn(Seq<char>) -> Option<T>,
    listing: Seq<Option<DirEntry<P>>>,
    reads: Seq<FileRead<T>>,
)
    requires
        fetches_files(disk, folder, decode, listing, reads),
    ensures
        stored_files(disk, folder).dom().finite(),
        reads.len() == stored_files(disk, folder).dom().len(),
        parsed_of(reads).to_multiset() == values_of(stored_files(disk, folder), decode),
{
    let stored = stored_files(disk, folder);
    let entries = json_entries_of(listing);
    let keys = Seq::new(entries.len(), |k: int| id_of(entries[k].name@));
    lemma_json_entries(listing);
    assert forall|k: int| 0 <= k < entries.len() implies stored.contains_key(#[trigger] keys[k])
        && entries[k].name@ == json_name(keys[k]) by {
        let name = entries[k].name@;
        assert(listing.contains(Some(entries[k])));
        let i = choose|i: int| 0 <= i < listing.len() && listing[i] == Some(entries[k]);
        assert(listing[i]->0.name@ == name);
        lemma_id_of(name);
    }
    assert(keys.no_duplicates()) by {
        assert forall|k: int, l: int|
            0 <= k < keys.len() && 0 <= l < keys.len() && k != l implies keys[k] != keys[l] by {
            if keys[k] == keys[l] {
                if k < l {
                    assert(entries[k].name@ != entries[l].name@);
                } else {
                    assert(entries[l].name@ != entries[k].name@);
                }
            }
        }
    }
    assert forall|id: Seq<char>| keys.to_set().contains(id) == stored.dom().contains(id) by {
        if keys.contains(id) {
            let k = choose|k: int| 0 <= k < keys.len() && keys[k] == id;
            assert(stored.contains_key(keys[k]));
        }
        if stored.contains_key(id) {
            let name = json_name(id);
            lemma_json_name(id);
            assert(disk.contains_key(Place { folder, name }));
            let i = choose|i: int|
                0 <= i < listing.len() && (#[trigger] listing[i]) is Some && listing[i]->0.name@
                    == name;
            lemma_json_entry_is_kept(listing, i);
            let k = choose|k: int| 0 <= k < entries.len() && entries[k] == listing[i]->0;
            assert(keys[k] == id);
        }
    }
    assert(keys.to_set() =~= stored.dom());
    lemma_listed_values(keys, stored, decode);
    assert forall|k: int| 0 <= k < reads.len() implies (#[trigger] reads[k]).item() == decode(
        stored[keys[k]],
    ) by {
        assert(stored.contains_key(keys[k]));
    }
    lemma_kept_alike(
        reads,
        keys,
        |f: FileRead<T>| f.item(),
        |id: Seq<char>| decode(stored[id]),
    );
}

/// What loading a flow run gives: the run where there is one and it can be decoded.
pub open spec fn run_loaded<T>(
    db: Database,
    decode: spec_fn(Seq<char>) -> Option<T>,
    id: Seq<char>,
) -> Option<T> {
    match flow_run(db, id) {
        Some(body) => decode(body),
        None => None,
    }
}

/// What loading each flow run that is stored gives, by id.
pub open spec fn runs_loaded<T>(
    db: Database,
    decode: spec_fn(Seq<char>) -> Option<T>,
) -> Map<Seq<char>, Option<T>> {
    Map::new(
        |id: Seq<char>| flow_run(db, id) is Some,
        |id: Seq<char>| run_loaded(db, decode, id),
    )
}

/// The flow runs that are listed are those that loading each stored id gives, each once, and
/// nothing else.
pub proof fn law_runs_listed_are_those_loaded<T>(
    db: Database,
    decode: spec_fn(Seq<char>) -> Option<T>,
    listing: Seq<(Seq<char>, Seq<char>)>,
    rows: Seq<Fetched<T>>,
)
    requires
        fetches_runs(db, decode, listing, rows),
    ensures
        runs_loaded(db, decode).dom().finite(),
        rows.len() == runs_loaded(db, decode).dom().len(),
        items_of(rows).to_multiset() == values_of(
            runs_loaded(db, decode),
            |run: Option<T>| run,
        ),
{
    let slot_of = |id: Seq<char>| Slot::Run { id };
    let keys = ids_of(listing);
    let loaded = runs_loaded(db, decode);
    let same = |run: Option<T>| run;
    lemma_listing_ids(db, slot_of, listing);
    assert forall|id: Seq<char>| keys.to_set().contains(id) == loaded.dom().contains(id) by {
        assert(db.contains_key(slot_of(id)) == db.contains_key(Slot::Run { id }));
    }
    assert(keys.to_set() =~= loaded.dom());
    lemma_listed_values(keys, loaded, same);
    assert forall|i: int| 0 <= i < rows.len() implies (#[trigger] rows[i]).item() == same(
        loaded[keys[i]],
    ) by {
        assert(keys[i] == listing[i].0);
        assert(keys.to_set().contains(keys[i]));
        assert(db[slot_of(listing[i].0)] == listing[i].1);
    }
    lemma_kept_alike(
        rows,
        keys,
        |row: Fetched<T>| row.item(),
        |id: Seq<char>| same(loaded[id]),
    );
}

/// Whether both backends hold the same flow runs.
pub open spec fn runs_agree<T>(
    disk: Disk,
    db: Database,
    decode_text: spec_fn(Seq<char>) -> Option<T>,
    decode_body: spec_fn(Seq<char>) -> Option<T>,
) -> bool {
    let stored = stored_files(disk, Folder::Runs);
    &&& stored.dom() == runs_loaded(db, decode_body).dom()
    &&& forall|id: Seq<char>| #[trigger]
        stored.contains_key(id) ==> decode_text(stored[id]) == run_loaded(db, decode_body, id)
}

/// Backends that hold the same flow runs do so after a run was saved in both. An empty id
/// is left out: its file is passed over.
pub proof fn law_saving_a_run_keeps_backends_alike<T>(
    disk: Disk,
    db: Database,
    decode_text: spec_fn(Seq<char>) -> Option<T>,
    decode_body: spec_fn(Seq<char>) -> Option<T>,
    id: Seq<char>,
    text: Seq<char>,
    body: Seq<char>,
)
    requires
        runs_agree(disk, db, decode_text, decode_body),
        id.len() > 0,
        decode_text(text) == decode_body(body),
    ensures
        runs_agree(
            with_json_file(disk, Folder::Runs, id, text),
            with_flow_run(db, id, body),
            decode_text,
            decode_body,
        ),
{
    let stored = stored_files(disk, Folder::Runs);
    let disk_after = with_json_file(disk, Folder::Runs, id, text);
    let db_after = with_flow_run(db, id, body);
    let stored_after = stored_files(disk_after, Folder::Runs);
    assert forall|other: Seq<char>| #[trigger] stored_after.dom().contains(other) == runs_loaded(
        db_after,
        decode_body,
    ).dom().contains(other) by {
        lemma_json_name(id);
        lemma_json_name(other);
        assert(stored.dom().contains(other) == runs_loaded(db, decode_body).dom().contains(other));
    }
    assert(stored_after.dom() =~= runs_loaded(db_after, decode_body).dom());
    assert forall|other: Seq<char>| #[trigger] stored_after.contains_key(other) implies decode_text(
        stored_after[other],
    ) == run_loaded(db_after, decode_body, other) by {
        lemma_json_name(id);
        lemma_json_name(other);
        if other != id {
            assert(stored.contains_key(other));
        }
    }
}

/// Backends that hold the same flow runs list the same.
pub proof fn law_backends_list_the_same_runs<P, T>(
    disk: Disk,
    db: Database,
    decode_text: spec_fn(Seq<char>) -> Option<T>,
    decode_body: spec_fn(Seq<char>) -> Option<T>,
    entries: Seq<Option<DirEntry<P>>>,
    reads: Seq<FileRead<T>>,
    listing: Seq<(Seq<char>, Seq<char>)>,
    rows: Seq<Fetched<T>>,
)
    requires
        runs_agree(disk, db, decode_text, decode_body),
        fetches_files(disk, Folder::Runs, decode_text, entries, reads),
        fetches_runs(db, decode_body, listing, rows),
    ensures
        parsed_of(reads).to_multiset() == items_of(rows).to_multiset(),
{
    law_files_listed_are_those_stored(disk, Folder::Runs, decode_text, entries, reads);
    law_runs_listed_are_those_loaded(db, decode_body, listing, rows);
    lemma_values_alike(
        stored_files(disk, Folder::Runs),
        runs_loaded(db, decode_body),
        decode_text,
        |run: Option<T>| run,
    );
}

// Any sequence of saves and deletes.

/// A save or a deletion of a chat. A chat has a text for the files, and is stored in the
/// database as a transcript.
pub enum ChatOp {
    Save { id: Seq<char>, text: Seq<char>, chat: Transcript },
    Delete { id: Seq<char> },
}

/// The chats that are there after a sequence of operations, each as it was saved last.
pub open spec fn live_chats(ops: Seq<ChatOp>) -> Map<Seq<char>, (Seq<char>, Transcript)>
    decreases ops.len(),
{
    if ops.len() == 0 {
        Map::empty()
    } else {
        match ops.last() {
            ChatOp::Save { id, text, chat } => live_chats(ops.drop_last()).insert(id, (text, chat)),
            ChatOp::Delete { id } => live_chats(ops.drop_last()).remove(id),
        }
    }
}

/// The files after a sequence of operations.
pub open spec fn files_after(disk: Disk, ops: Seq<ChatOp>) -> Disk
    decreases ops.len(),
{
    if ops.len() == 0 {
        disk
    } else {
        match ops.last() {
            ChatOp::Save { id, text, .. } => with_json_file(
                files_after(disk, ops.drop_last()),
                Folder::Chats,
                id,
                text,
            ),
            ChatOp::Delete { id } => without_json_file(
                files_after(disk, ops.drop_last()),
                Folder::Chats,
                id,
            ),
        }
    }
}

/// The database after a sequence of operations.
pub open spec fn database_after(db: Database, ops: Seq<ChatOp>) -> Database
    decreases ops.len(),
{
    if ops.len() == 0 {
        db
    } else {
        match ops.last() {
            ChatOp::Save { id, chat, .. } => with_transcript(
                database_after(db, ops.drop_last()),
                id,
                chat,
            ),
            ChatOp::Delete { id } => without_transcript(database_after(db, ops.drop_last()), id),
        }
    }
}

/// Whether no chat is saved under an empty id.
pub open spec fn names_its_chats(ops: Seq<ChatOp>) -> bool {
    forall|i: int| 0 <= i < ops.len() && (#[trigger] ops[i]) is Save ==> ops[i]->Save_id.len() > 0
}

/// The chat files after a sequence of operations are those of the chats that are there.
proof fn lemma_files_after(disk: Disk, ops: Seq<ChatOp>, id: Seq<char>)
    requires
        names_its_chats(ops),
        !disk.contains_key(json_place(Folder::Chats, id)),
    ensures
        !live_chats(ops).contains_key(Seq::empty()),
        content(files_after(disk, ops), json_place(Folder::Chats, id)) == (if live_chats(
            ops,
        ).contains_key(id) {
            Some(live_chats(ops)[id].0)
        } else {
            None
        }),
    decreases ops.len(),
{
    if ops.len() > 0 {
        let init = ops.drop_last();
        assert(names_its_chats(init)) by {
            assert forall|i: int| 0 <= i < init.len() && (#[trigger] init[i]) is Save implies init[
                i
            ]->Save_id.len() > 0 by {
                assert(init[i] == ops[i]);
            }
        }
        lemma_files_after(disk, init, id);
        lemma_json_name(id);
        match ops[ops.len() - 1] {
            ChatOp::Save { id: other, .. } => {
                lemma_json_name(other);
            },
            ChatOp::Delete { id: other } => {
                lemma_json_name(other);
            },
        }
    }
}

/// The chats of the database after a sequence of operations are those that are there.
proof fn lemma_database_after(db: Database, ops: Seq<ChatOp>, id: Seq<char>)
    requires
        !db.contains_key(Slot::Chat { id }),
    ensures
        live_chats(ops).dom().finite(),
        database_after(db, ops).contains_key(Slot::Chat { id }) == live_chats(ops).contains_key(id),
        live_chats(ops).contains_key(id) ==> holds_transcript(
            database_after(db, ops),
            id,
            live_chats(ops)[id].1,
        ),
    decreases ops.len(),
{
    if ops.len() > 0 {
        let init = ops.drop_last();
        lemma_database_after(db, init, id);
        let before = database_after(db, init);
        match ops.last() {
            ChatOp::Save { id: other, text, chat } => {
                law_chat_saved_is_held(before, other, chat);
            },
            ChatOp::Delete { id: other } => {
                law_chat_deleted_is_gone(before, other, live_chats(init)[id].1);
            },
        }
    }
}

/// Whatever chats are saved and deleted, in whatever order, starting without any, the files
/// backend then loads each chat that is there once, as it was saved last, and nothing else.
/// An empty id is left out: its file is passed over.
pub proof fn law_files_load_the_live_chats<P, T>(
    disk: Disk,
    ops: Seq<ChatOp>,
    decode: spec_fn(Seq<char>) -> Option<T>,
    listing: Seq<Option<DirEntry<P>>>,
    reads: Seq<FileRead<T>>,
)
    requires
        forall|name: Seq<char>| !#[trigger]
            disk.contains_key(Place { folder: Folder::Chats, name }),
        names_its_chats(ops),
        fetches_files(files_after(disk, ops), Folder::Chats, decode, listing, reads),
    ensures
        live_chats(ops).dom().finite(),
        parsed_of(reads).to_multiset() == values_of(
            live_chats(ops),
            |saved: (Seq<char>, Transcript)| decode(saved.0),
        ),
{
    let after = files_after(disk, ops);
    let live = live_chats(ops);
    let stored = stored_files(after, Folder::Chats);
    law_files_listed_are_those_stored(after, Folder::Chats, decode, listing, reads);
    assert forall|id: Seq<char>| #[trigger] stored.contains_key(id) == live.contains_key(id) && (
    live.contains_key(id) ==> stored[id] == live[id].0) by {
        assert(!disk.contains_key(Place { folder: Folder::Chats, name: json_name(id) }));
        lemma_files_after(disk, ops, id);
        if id.len() == 0 {
            assert(id =~= Seq::empty());
        }
    }
    assert(stored.dom() =~= live.dom());
    lemma_values_alike(stored, live, decode, |saved: (Seq<char>, Transcript)| decode(saved.0));
}

/// Whatever chats are saved and deleted, in whatever order, starting without any, the
/// database then gives each chat that is there once, as it was saved last, and nothing
/// else.
pub proof fn law_database_loads_the_live_chats<T>(
    db: Database,
    ops: Seq<ChatOp>,
    decode: spec_fn(Transcript) -> Option<T>,
    listing: Seq<(Seq<char>, Seq<char>)>,
    read: Seq<Transcript>,
    rows: Seq<Fetched<T>>,
)
    requires
        forall|id: Seq<char>| !#[trigger] db.contains_key(Slot::Chat { id }),
        fetches_chats(database_after(db, ops), decode, listing, read, rows),
    ensures
        live_chats(ops).dom().finite(),
        items_of(rows).to_multiset() == values_of(
            live_chats(ops),
            |saved: (Seq<char>, Transcript)| decode(saved.1),
        ),
{
    let after = database_after(db, ops);
    let live = live_chats(ops);
    let slot_of = |id: Seq<char>| Slot::Chat { id };
    let keys = ids_of(listing);
    let from_saved = |saved: (Seq<char>, Transcript)| decode(saved.1);
    lemma_listing_ids(after, slot_of, listing);
    assert forall|id: Seq<char>| keys.to_set().contains(id) == live.dom().contains(id) by {
        lemma_database_after(db, ops, id);
        assert(after.contains_key(slot_of(id)) == after.contains_key(Slot::Chat { id }));
    }
    assert(keys.to_set() =~= live.dom());
    assert forall|i: int| 0 <= i < rows.len() implies (#[trigger] rows[i]).item() == from_saved(
        live[keys[i]],
    ) by {
        let id = listing[i].0;
        assert(keys[i] == id);
        assert(keys.to_set().contains(keys[i]));
        lemma_database_after(db, ops, id);
        assert(after[slot_of(listing[i].0)] == listing[i].1);
        law_messages_come_in_order(after, id, live[id].1.messages, read[i].messages);
        assert(read[i] =~= live[id].1);
    }
    lemma_listed_values(keys, live, from_saved);
    lemma_kept_alike(
        rows,
        keys,
        |row: Fetched<T>| row.item(),
        |id: Seq<char>| from_saved(live[id]),
    );
}

/// A chat that is there was saved so.
proof fn lemma_live_was_saved(ops: Seq<ChatOp>, id: Seq<char>)
    requires
        live_chats(ops).contains_key(id),
    ensures
        exists|i: int|
            0 <= i < ops.len() && (#[trigger] ops[i]) is Save && ops[i]->text == live_chats(
                ops,
            )[id].0 && ops[i]->chat == live_chats(ops)[id].1,
    decreases ops.len(),
{
    let init = ops.drop_last();
    let last = ops[ops.len() - 1];
    if last is Save && last->Save_id == id {
        assert(ops[ops.len() - 1] is Save);
    } else {
        lemma_live_was_saved(init, id);
        let i = choose|i: int|
            0 <= i < init.len() && (#[trigger] init[i]) is Save && init[i]->text == live_chats(
                init,
            )[id].0 && init[i]->chat == live_chats(init)[id].1;
        assert(ops[i] == init[i]);
    }
}

/// Both backends load the same chats after the same saves and deletes, and where each of
/// them can be decoded, one for each chat that is there.
pub proof fn law_backends_load_the_same_chats<P, T>(
    disk: Disk,
    db: Database,
    ops: Seq<ChatOp>,
    decode_text: spec_fn(Seq<char>) -> Option<T>,
    decode_chat: spec_fn(Transcript) -> Option<T>,
    entries: Seq<Option<DirEntry<P>>>,
    reads: Seq<FileRead<T>>,
    listing: Seq<(Seq<char>, Seq<char>)>,
    read: Seq<Transcript>,
    rows: Seq<Fetched<T>>,
)
    requires
        forall|name: Seq<char>| !#[trigger]
            disk.contains_key(Place { folder: Folder::Chats, name }),
        forall|id: Seq<char>| !#[trigger] db.contains_key(Slot::Chat { id }),
        names_its_chats(ops),
        forall|i: int|
            0 <= i < ops.len() && (#[trigger] ops[i]) is Save ==> decode_text(ops[i]->text)
                == decode_chat(ops[i]->chat),
        fetches_files(files_after(disk, ops), Folder::Chats, decode_text, entries, reads),
        fetches_chats(database_after(db, ops), decode_chat, listing, read, rows),
    ensures
        parsed_of(reads).to_multiset() == items_of(rows).to_multiset(),
        (forall|i: int|
            0 <= i < ops.len() && (#[trigger] ops[i]) is Save ==> decode_text(ops[i]->text) is Some)
            ==> parsed_of(reads).len() == live_chats(ops).dom().len() && items_of(rows).len()
            == live_chats(ops).dom().len(),
{
    let live = live_chats(ops);
    let from_text = |saved: (Seq<char>, Transcript)| decode_text(saved.0);
    let from_chat = |saved: (Seq<char>, Transcript)| decode_chat(saved.1);
    law_files_load_the_live_chats(disk, ops, decode_text, entries, reads);
    law_database_loads_the_live_chats(db, ops, decode_chat, listing, read, rows);
    assert forall|id: Seq<char>| #[trigger] live.contains_key(id) implies from_text(live[id])
        == from_chat(live[id]) by {
        lemma_live_was_saved(ops, id);
    }
    lemma_values_alike(live, live, from_text, from_chat);
    if forall|i: int|
        0 <= i < ops.len() && (#[trigger] ops[i]) is Save ==> decode_text(ops[i]->text) is Some {
        assert forall|id: Seq<char>| #[trigger] live.contains_key(id) implies from_text(
            live[id],
        ) is Some by {
            lemma_live_was_saved(ops, id);
        }
        lemma_values_len(live, from_text);
        parsed_of(reads).to_multiset_ensures();
        items_of(rows).to_multiset_ensures();
    }
}

} // verus!
