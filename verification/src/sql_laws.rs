//! What the texts of the statements come to, with the values that are bound to them.

use vstd::prelude::*;

use crate::dialect::{
    adds, batch_changes, batch_text, cell, column_list, columns_of, condition_list, is_before, is_in, is_reading, is_row,
    joined, key_of, mark_list, new_store, picks, table_name, Column, Command, Condition, Declared,
    Definition, Kind, Mark, Setting, Statement, Store, Test,
};
use crate::model::{
    answers, answers_with_bodies, answers_with_rows, effect, is_message_from, lists,
    lists_messages_at, opened, row, Database, Slot,
};
use crate::sql::{param_values, schema_text, Key, Param, ParamValue, Query, Table, Write};

verus! {

/// The marks for a whole row of a table.
pub open spec fn row_marks(table: Table) -> Seq<Mark> {
    if columns_of(table).len() == 3 {
        seq![Mark::First, Mark::Second, Mark::Third]
    } else {
        seq![Mark::First, Mark::Second]
    }
}

/// The conditions that pick the row with a primary key.
pub open spec fn key_conditions(table: Table) -> Seq<Condition> {
    Seq::new(
        key_of(table).len(),
        |i: int| Condition { column: key_of(table)[i], test: Test::Is, mark: row_marks(table)[i] },
    )
}

/// The statement that a write is written as.
pub open spec fn write_statement(write: Write) -> Statement {
    match write {
        Write::Put { key, .. } => Statement::Upsert {
            table: key@.table(),
            columns: columns_of(key@.table()),
            values: row_marks(key@.table()),
            target: key_of(key@.table()),
            set: columns_of(key@.table()).last(),
        },
        Write::Delete { key } => Statement::Delete {
            table: key@.table(),
            conditions: key_conditions(key@.table()),
        },
        Write::TrimMessages { .. } => Statement::Delete {
            table: Table::Messages,
            conditions: seq![
                Condition { column: Column::ChatId, test: Test::Is, mark: Mark::First },
                Condition { column: Column::Position, test: Test::AtLeast, mark: Mark::Second },
            ],
        },
    }
}

/// The statement that a query is written as.
pub open spec fn query_statement(query: Query) -> Statement {
    match query {
        Query::Body { key } => Statement::Select {
            columns: seq![columns_of(key@.table()).last()],
            table: key@.table(),
            conditions: key_conditions(key@.table()),
            order: None,
        },
        Query::Chats => Statement::Select {
            columns: seq![Column::Id, Column::Body],
            table: Table::Chats,
            conditions: seq![],
            order: None,
        },
        Query::Runs => Statement::Select {
            columns: seq![Column::Id, Column::Body],
            table: Table::FlowRuns,
            conditions: seq![],
            order: None,
        },
        Query::Messages { .. } => Statement::Select {
            columns: seq![Column::Body],
            table: Table::Messages,
            conditions: seq![
                Condition { column: Column::ChatId, test: Test::Is, mark: Mark::First },
            ],
            order: Some(Column::Position),
        },
    }
}

// How they are written.

/// Short lists, written out.
proof fn lemma_joined(a: Seq<char>, b: Seq<char>, c: Seq<char>, separator: Seq<char>)
    ensures
        joined(seq![a], separator) == a,
        joined(seq![a, b], separator) == a + separator + b,
        joined(seq![a, b, c], separator) == a + separator + b + separator + c,
{
    assert(seq![a, b].drop_last() =~= seq![a]);
    assert(seq![a, b, c].drop_last() =~= seq![a, b]);
    assert(joined(seq![a], separator) == a);
    assert(joined(seq![a, b], separator) == a + separator + b);
}

/// The lists that a table's columns come to.
proof fn lemma_table_lists(table: Table)
    ensures
        column_list(columns_of(table)) =~= table.key_text() + ", "@ + table.body_text(),
        column_list(key_of(table)) =~= table.key_text(),
        mark_list(row_marks(table)) =~= table.marks_text(),
        condition_list(key_conditions(table)) =~= table.match_text(),
        columns_of(table).last().text() == table.body_text(),
        table_name(table) == table.name_text(),
{
    let comma = ", "@;
    let and = " AND "@;
    let text_of = |c: Column| c.text();
    let mark_text = |m: Mark| m.text();
    let condition_text = |c: Condition| c.text();
    let columns = columns_of(table);
    let marks = row_marks(table);
    let conditions = key_conditions(table);
    if table == Table::Messages {
        let a = Column::ChatId.text();
        let b = Column::Position.text();
        let c = Column::Body.text();
        assert(columns.map_values(text_of) =~= seq![a, b, c]);
        assert(key_of(table).map_values(text_of) =~= seq![a, b]);
        lemma_joined(a, b, c, comma);
        let first = Mark::First.text();
        let second = Mark::Second.text();
        let third = Mark::Third.text();
        assert(marks.map_values(mark_text) =~= seq![first, second, third]);
        lemma_joined(first, second, third, comma);
        let x = a + "="@ + first;
        let y = b + "="@ + second;
        assert(conditions.map_values(condition_text) =~= seq![x, y]);
        lemma_joined(x, y, y, and);
        reveal_strlit("chat_id");
        reveal_strlit("seq");
        reveal_strlit(", ");
        reveal_strlit("chat_id, seq");
        reveal_strlit("?1");
        reveal_strlit("?2");
        reveal_strlit("?3");
        reveal_strlit("?1, ?2, ?3");
        reveal_strlit("=");
        reveal_strlit(" AND ");
        reveal_strlit("chat_id=?1 AND seq=?2");
    } else {
        let a = columns[0].text();
        let b = columns[1].text();
        assert(columns.map_values(text_of) =~= seq![a, b]);
        assert(key_of(table).map_values(text_of) =~= seq![a]);
        lemma_joined(a, b, b, comma);
        let first = Mark::First.text();
        let second = Mark::Second.text();
        assert(marks.map_values(mark_text) =~= seq![first, second]);
        lemma_joined(first, second, second, comma);
        let x = a + "="@ + first;
        assert(conditions.map_values(condition_text) =~= seq![x]);
        lemma_joined(x, x, x, and);
        reveal_strlit(", ");
        reveal_strlit("?1");
        reveal_strlit("?2");
        reveal_strlit("?1, ?2");
        reveal_strlit("=");
        reveal_strlit("=?1");
    }
}

/// The text of a write is that of its statement.
pub proof fn law_write_is_written_as_its_statement(write: Write)
    ensures
        write.sql_text() == write_statement(write).text(),
{
    match write {
        Write::Put { key, .. } => {
            lemma_table_lists(key@.table());
            assert(write.sql_text() =~= write_statement(write).text());
        },
        Write::Delete { key } => {
            lemma_table_lists(key@.table());
            assert(write.sql_text() =~= write_statement(write).text());
        },
        Write::TrimMessages { .. } => {
            let x = "chat_id"@ + "="@ + "?1"@;
            let y = "seq"@ + ">="@ + "?2"@;
            let conditions = write_statement(write)->Delete_conditions;
            assert(conditions.map_values(|c: Condition| c.text()) =~= seq![x, y]);
            lemma_joined(x, y, y, " AND "@);
            reveal_strlit("DELETE FROM messages WHERE chat_id=?1 AND seq>=?2");
            reveal_strlit("DELETE FROM ");
            reveal_strlit("messages");
            reveal_strlit(" WHERE ");
            reveal_strlit("chat_id");
            reveal_strlit("=");
            reveal_strlit("?1");
            reveal_strlit(" AND ");
            reveal_strlit("seq");
            reveal_strlit(">=");
            reveal_strlit("?2");
            assert(write.sql_text() =~= "DELETE FROM "@ + "messages"@ + " WHERE "@ + (x + " AND "@
                + y));
        },
    }
}

/// The text of a query is that of its statement.
pub proof fn law_query_is_written_as_its_statement(query: Query)
    ensures
        query.sql_text() == query_statement(query).text(),
{
    let text_of = |c: Column| c.text();
    let condition_text = |c: Condition| c.text();
    match query {
        Query::Body { key } => {
            let table = key@.table();
            lemma_table_lists(table);
            let column = columns_of(table).last();
            assert(seq![column].map_values(text_of) =~= seq![column.text()]);
            lemma_joined(column.text(), column.text(), column.text(), ", "@);
            assert(query.sql_text() =~= query_statement(query).text());
        },
        Query::Chats => {
            lemma_table_lists(Table::Chats);
            assert(query.sql_text() =~= query_statement(query).text());
        },
        Query::Runs => {
            lemma_table_lists(Table::FlowRuns);
            assert(query.sql_text() =~= query_statement(query).text());
        },
        Query::Messages { .. } => {
            let x = "chat_id"@ + "="@ + "?1"@;
            let conditions = query_statement(query)->Select_conditions;
            assert(conditions.map_values(condition_text) =~= seq![x]);
            lemma_joined(x, x, x, " AND "@);
            assert(seq![Column::Body].map_values(text_of) =~= seq!["body"@]);
            lemma_joined("body"@, x, x, ", "@);
            reveal_strlit("SELECT body FROM messages WHERE chat_id=?1 ORDER BY seq");
            reveal_strlit("SELECT ");
            reveal_strlit("body");
            reveal_strlit(" FROM ");
            reveal_strlit("messages");
            reveal_strlit(" WHERE ");
            reveal_strlit("chat_id");
            reveal_strlit("=");
            reveal_strlit("?1");
            reveal_strlit(" ORDER BY ");
            reveal_strlit("seq");
            assert(query.sql_text() =~= "SELECT "@ + "body"@ + " FROM "@ + "messages"@ + (
            " WHERE "@ + x) + (" ORDER BY "@ + "seq"@));
        },
    }
}

// What they do.

/// The row that a key and a text are bound for, and no other.
proof fn lemma_bound_row(
    key: Key,
    bound: Seq<ParamValue>,
    body: Seq<char>,
    slot: Slot,
    text: Seq<char>,
)
    requires
        bound == key@.values().push(ParamValue::Text(body)),
    ensures
        is_row(
            key@.table(),
            columns_of(key@.table()),
            row_marks(key@.table()),
            bound,
            slot,
            text,
        ) <==> slot == key@ && text == body,
{
    let table = key@.table();
    let columns = columns_of(table);
    let marks = row_marks(table);
    if is_row(table, columns, marks, bound, slot, text) {
        assert(cell(slot, text, columns[0]) == Some(bound[marks[0].index()]));
        assert(cell(slot, text, columns[1]) == Some(bound[marks[1].index()]));
        if columns.len() == 3 {
            assert(cell(slot, text, columns[2]) == Some(bound[marks[2].index()]));
        }
    }
}

/// The row with a primary key is picked, and no other.
proof fn lemma_key_picks(key: Key, slot: Slot, text: Seq<char>)
    ensures
        picks(
            key@.table(),
            key_conditions(key@.table()),
            key@.values(),
            slot,
            text,
        ) <==> slot == key@,
{
    let table = key@.table();
    let conditions = key_conditions(table);
    if picks(table, conditions, key@.values(), slot, text) {
        assert(conditions[0].holds(slot, text, key@.values()));
        if conditions.len() == 2 {
            assert(conditions[1].holds(slot, text, key@.values()));
        }
    }
}

/// Whatever the database holds, running the text of a write with its bound values leaves
/// exactly what the write is said to leave: the row of its key with its whole body for a
/// put, no such row for a deletion, and no message from the position on, however far, for a
/// trim. Every other row stays.
pub proof fn law_write_does_its_effect(write: Write, db: Database, after: Database)
    ensures
        write.sql_text() == write_statement(write).text(),
        write_statement(write).leaves(db, write.bound(), after) <==> after == effect(db, write),
{
    law_write_is_written_as_its_statement(write);
    let statement = write_statement(write);
    let bound = write.bound();
    match write {
        Write::Put { key, body } => {
            let table = key@.table();
            let columns = columns_of(table);
            let set = columns.last();
            assert(cell(key@, body@, set) == Some(ParamValue::Text(body@)));
            if statement.leaves(db, bound, after) {
                let (slot, text) = choose|slot: Slot, text: Seq<char>|
                    is_row(table, columns, row_marks(table), bound, slot, text) && #[trigger] adds(
                        db,
                        slot,
                        text,
                        set,
                        after,
                    );
                lemma_bound_row(key, bound, body@, slot, text);
                assert(cell(slot, after[slot], set) == Some(ParamValue::Text(after[slot])));
                assert(after[slot] == body@);
                assert(after.remove(slot).insert(slot, after[slot]) =~= after);
                assert(db.remove(slot).insert(slot, body@) =~= db.insert(slot, body@));
            }
            if after == effect(db, write) {
                lemma_bound_row(key, bound, body@, key@, body@);
                assert(after.remove(key@) =~= db.remove(key@));
                assert(adds(db, key@, body@, set, after));
            }
        },
        Write::Delete { key } => {
            let kept = Map::new(
                |slot: Slot|
                    db.contains_key(slot) && !picks(
                        key@.table(),
                        key_conditions(key@.table()),
                        bound,
                        slot,
                        db[slot],
                    ),
                |slot: Slot| db[slot],
            );
            assert forall|slot: Slot| #[trigger] kept.contains_key(slot) == db.remove(
                key@,
            ).contains_key(slot) by {
                lemma_key_picks(key, slot, db[slot]);
            }
            assert(kept =~= db.remove(key@));
        },
        Write::TrimMessages { chat_id, len } => {
            let conditions = statement->Delete_conditions;
            let kept = Map::new(
                |slot: Slot|
                    db.contains_key(slot) && !picks(
                        Table::Messages,
                        conditions,
                        bound,
                        slot,
                        db[slot],
                    ),
                |slot: Slot| db[slot],
            );
            assert forall|slot: Slot| picks(
                Table::Messages,
                conditions,
                bound,
                slot,
                db[slot],
            ) == #[trigger] is_message_from(slot, chat_id@, len as nat) by {
                if picks(Table::Messages, conditions, bound, slot, db[slot]) {
                    assert(conditions[0].holds(slot, db[slot], bound));
                    assert(conditions[1].holds(slot, db[slot], bound));
                }
            }
            assert(kept =~= effect(db, write));
        },
    }
}

/// What is given where at most one text is read.
pub open spec fn one_text(body: Option<Seq<char>>) -> Seq<Seq<ParamValue>> {
    match body {
        Some(text) => seq![seq![ParamValue::Text(text)]],
        None => seq![],
    }
}

/// What is given where texts are read.
pub open spec fn given_texts(bodies: Seq<Seq<char>>) -> Seq<Seq<ParamValue>> {
    bodies.map_values(|body: Seq<char>| seq![ParamValue::Text(body)])
}

/// What is given where ids and texts are read.
pub open spec fn given_pairs(rows: Seq<(Seq<char>, Seq<char>)>) -> Seq<Seq<ParamValue>> {
    rows.map_values(
        |r: (Seq<char>, Seq<char>)| seq![ParamValue::Text(r.0), ParamValue::Text(r.1)],
    )
}

/// Whatever the database holds, running the text of a query for one row with its bound
/// values gives the text of the row with that key, whatever the key is, and nothing where
/// there is no such row.
pub proof fn law_query_reads_its_row(key: Key, db: Database, given: Seq<Seq<ParamValue>>)
    ensures
        ({
            let query = Query::Body { key };
            let statement = query_statement(query);
            &&& query.sql_text() == statement.text()
            &&& statement.gives(db, query.bound(), given) <==> given == one_text(row(db, key@))
            &&& forall|body: Option<Seq<char>>| #[trigger]
                answers(db, query, body) <==> statement.gives(db, query.bound(), one_text(body))
        }),
{
    let query = Query::Body { key };
    law_query_is_written_as_its_statement(query);
    lemma_reads_its_row(key, db, given);
    assert forall|body: Option<Seq<char>>| #[trigger] answers(db, query, body)
        <==> query_statement(query).gives(db, query.bound(), one_text(body)) by {
        lemma_reads_its_row(key, db, one_text(body));
        if one_text(body) == one_text(row(db, key@)) && body is Some && row(db, key@) is Some {
            assert(one_text(body)[0][0] == one_text(row(db, key@))[0][0]);
        }
        assert(one_text(body).len() == one_text(row(db, key@)).len() ==> body is Some == (row(
            db,
            key@,
        ) is Some));
    }
}

proof fn lemma_reads_its_row(key: Key, db: Database, given: Seq<Seq<ParamValue>>)
    ensures
        query_statement(Query::Body { key }).gives(db, Query::Body { key }.bound(), given)
            <==> given == one_text(row(db, key@)),
{
    let query = Query::Body { key };
    let statement = query_statement(query);
    let bound = query.bound();
    let table = key@.table();
    let columns = seq![columns_of(table).last()];
    assert forall|slot: Slot| picks(
        table,
        key_conditions(table),
        bound,
        slot,
        db[slot],
    ) == (slot == key@) by {
        lemma_key_picks(key, slot, db[slot]);
    }
    if statement.gives(db, bound, given) {
        let slots = choose|slots: Seq<Slot>| statement.gives_of(db, bound, slots, given);
        if db.contains_key(key@) {
            assert(slots.contains(key@));
            assert(slots.contains(slots[0]));
            if slots.len() > 1 {
                assert(slots.contains(slots[1]));
            }
            assert(is_reading(columns, slots[0], db[slots[0]], given[0]));
            assert(cell(key@, db[key@], columns[0]) == Some(given[0][0]));
            assert(given[0] =~= seq![ParamValue::Text(db[key@])]);
        } else if slots.len() > 0 {
            assert(slots.contains(slots[0]));
        }
        assert(given =~= one_text(row(db, key@)));
    }
    if given == one_text(row(db, key@)) {
        let slots = if db.contains_key(key@) {
            seq![key@]
        } else {
            Seq::empty()
        };
        if db.contains_key(key@) {
            assert(slots[0] == key@);
            assert(slots.contains(key@));
        }
        assert forall|slot: Slot| #[trigger] slots.contains(slot) <==> db.contains_key(slot)
            && picks(table, key_conditions(table), bound, slot, db[slot]) by {
            lemma_key_picks(key, slot, db[slot]);
        }
        assert(statement.gives_of(db, bound, slots, given));
    }
}

/// The rows of a table with one key column `id`, by the statement that lists it.
proof fn lemma_lists_its_table(
    db: Database,
    table: Table,
    slot_of: spec_fn(Seq<char>) -> Slot,
    given: Seq<Seq<ParamValue>>,
)
    requires
        forall|slot: Slot| #[trigger]
            is_in(slot, table) <==> exists|id: Seq<char>| slot == #[trigger] slot_of(id),
        forall|id: Seq<char>, body: Seq<char>|
            #![trigger cell(slot_of(id), body, Column::Id)]
            #![trigger cell(slot_of(id), body, Column::Body)]
            cell(slot_of(id), body, Column::Id) == Some(ParamValue::Text(id)) && cell(
                slot_of(id),
                body,
                Column::Body,
            ) == Some(ParamValue::Text(body)),
    ensures
        (Statement::Select {
            columns: seq![Column::Id, Column::Body],
            table,
            conditions: seq![],
            order: None,
        }).gives(db, seq![], given) <==> exists|rows: Seq<(Seq<char>, Seq<char>)>| #[trigger]
            lists(db, slot_of, rows) && given == given_pairs(rows),
{
    let columns = seq![Column::Id, Column::Body];
    let conditions = Seq::<Condition>::empty();
    let bound = Seq::<ParamValue>::empty();
    let statement = Statement::Select { columns, table, conditions: seq![], order: None };
    assert(seq![] =~= conditions);
    assert(seq![] =~= bound);
    assert(statement.marks() == 0);
    if statement.gives(db, bound, given) {
        let slots = choose|slots: Seq<Slot>| statement.gives_of(db, bound, slots, given);
        let rows = Seq::new(
            slots.len(),
            |i: int| (choose|id: Seq<char>| slots[i] == #[trigger] slot_of(id), db[slots[i]]),
        );
        assert forall|i: int| 0 <= i < slots.len() implies slots[i] == slot_of(
            (#[trigger] rows[i]).0,
        ) && db.contains_key(slots[i]) && given[i] == seq![
            ParamValue::Text(rows[i].0),
            ParamValue::Text(rows[i].1),
        ] by {
            assert(slots.contains(slots[i]));
            assert(is_in(slots[i], table));
            let id = rows[i].0;
            assert(slots[i] == slot_of(id));
            assert(is_reading(columns, slots[i], db[slots[i]], given[i]));
            assert(cell(slot_of(id), db[slots[i]], columns[0]) == Some(given[i][0]));
            assert(cell(slot_of(id), db[slots[i]], columns[1]) == Some(given[i][1]));
            assert(given[i] =~= seq![ParamValue::Text(id), ParamValue::Text(rows[i].1)]);
        }
        assert forall|i: int, j: int|
            #![trigger rows[i], rows[j]]
            0 <= i < j < rows.len() implies rows[i].0 != rows[j].0 by {
            assert(slots[i] != slots[j]);
        }
        assert forall|id: Seq<char>| #[trigger] db.contains_key(slot_of(id)) implies exists|i: int|
            0 <= i < rows.len() && #[trigger] rows[i].0 == id by {
            let slot = slot_of(id);
            assert(is_in(slot, table));
            assert(slots.contains(slot));
            let i = choose|i: int| 0 <= i < slots.len() && slots[i] == slot;
            assert(slot_of(rows[i].0) == slot_of(id));
            assert(cell(slot_of(rows[i].0), db[slot], Column::Id) == cell(
                slot_of(id),
                db[slot],
                Column::Id,
            ));
            assert(rows[i].0 == id);
        }
        assert(lists(db, slot_of, rows));
        assert(given =~= given_pairs(rows));
    }
    if exists|rows: Seq<(Seq<char>, Seq<char>)>| #[trigger]
        lists(db, slot_of, rows) && given == given_pairs(rows) {
        let rows = choose|rows: Seq<(Seq<char>, Seq<char>)>| #[trigger]
            lists(db, slot_of, rows) && given == given_pairs(rows);
        let slots = Seq::new(rows.len(), |i: int| slot_of(rows[i].0));
        assert forall|i: int, j: int|
            0 <= i < slots.len() && 0 <= j < slots.len() && i != j implies slots[i] != slots[j] by {
            assert(cell(slot_of(rows[i].0), rows[i].1, Column::Id) == Some(
                ParamValue::Text(rows[i].0),
            ));
            assert(cell(slot_of(rows[j].0), rows[i].1, Column::Id) == Some(
                ParamValue::Text(rows[j].0),
            ));
            if i < j {
                assert(rows[i].0 != rows[j].0);
            } else {
                assert(rows[j].0 != rows[i].0);
            }
        }
        assert forall|slot: Slot| #[trigger] slots.contains(slot) <==> db.contains_key(slot)
            && picks(table, conditions, bound, slot, db[slot]) by {
            if slots.contains(slot) {
                let i = choose|i: int| 0 <= i < slots.len() && slots[i] == slot;
                assert(slot == slot_of(rows[i].0));
                assert(is_in(slot, table));
            }
            if db.contains_key(slot) && is_in(slot, table) {
                let id = choose|id: Seq<char>| slot == #[trigger] slot_of(id);
                assert(db.contains_key(slot_of(id)));
                let i = choose|i: int| 0 <= i < rows.len() && #[trigger] rows[i].0 == id;
                assert(slots[i] == slot);
            }
        }
        assert forall|i: int|
            #![trigger given[i]]
            #![trigger slots[i]]
            0 <= i < slots.len() implies is_reading(columns, slots[i], db[slots[i]], given[i]) by {
            assert(db[slot_of(rows[i].0)] == rows[i].1);
            assert(given[i] == seq![ParamValue::Text(rows[i].0), ParamValue::Text(rows[i].1)]);
            assert forall|j: int| 0 <= j < columns.len() implies cell(
                slots[i],
                db[slots[i]],
                #[trigger] columns[j],
            ) == Some(given[i][j]) by {
                assert(cell(slot_of(rows[i].0), rows[i].1, Column::Id) == Some(
                    ParamValue::Text(rows[i].0),
                ));
            }
        }
        assert(statement.gives_of(db, bound, slots, given));
    }
}

/// Whatever the database holds, running the text that lists the chats gives the id and the
/// text of each chat, each once, and nothing else.
pub proof fn law_query_lists_the_chats(db: Database, given: Seq<Seq<ParamValue>>)
    ensures
        Query::Chats.sql_text() == query_statement(Query::Chats).text(),
        query_statement(Query::Chats).gives(db, Query::Chats.bound(), given) <==> exists|
            rows: Seq<(Seq<char>, Seq<char>)>,
        | #[trigger]
            answers_with_rows(db, Query::Chats, rows) && given == given_pairs(rows),
{
    law_query_is_written_as_its_statement(Query::Chats);
    let slot_of = |id: Seq<char>| Slot::Chat { id };
    assert forall|slot: Slot| #[trigger] is_in(slot, Table::Chats) <==> exists|id: Seq<char>|
        slot == #[trigger] slot_of(id) by {
        if slot is Chat {
            assert(slot == slot_of(slot->Chat_id));
        }
    }
    lemma_lists_its_table(db, Table::Chats, slot_of, given);
    if query_statement(Query::Chats).gives(db, Query::Chats.bound(), given) {
        let rows = choose|rows: Seq<(Seq<char>, Seq<char>)>| #[trigger]
            lists(db, slot_of, rows) && given == given_pairs(rows);
        assert(answers_with_rows(db, Query::Chats, rows));
    }
    if exists|rows: Seq<(Seq<char>, Seq<char>)>| #[trigger]
        answers_with_rows(db, Query::Chats, rows) && given == given_pairs(rows) {
        let rows = choose|rows: Seq<(Seq<char>, Seq<char>)>| #[trigger]
            answers_with_rows(db, Query::Chats, rows) && given == given_pairs(rows);
        assert(lists(db, slot_of, rows));
    }
}

/// Whatever the database holds, running the text that lists the flow runs gives the id and
/// the text of each run, each once, and nothing else.
pub proof fn law_query_lists_the_runs(db: Database, given: Seq<Seq<ParamValue>>)
    ensures
        Query::Runs.sql_text() == query_statement(Query::Runs).text(),
        query_statement(Query::Runs).gives(db, Query::Runs.bound(), given) <==> exists|
            rows: Seq<(Seq<char>, Seq<char>)>,
        | #[trigger]
            answers_with_rows(db, Query::Runs, rows) && given == given_pairs(rows),
{
    law_query_is_written_as_its_statement(Query::Runs);
    let slot_of = |id: Seq<char>| Slot::Run { id };
    assert forall|slot: Slot| #[trigger] is_in(slot, Table::FlowRuns) <==> exists|id: Seq<char>|
        slot == #[trigger] slot_of(id) by {
        if slot is Run {
            assert(slot == slot_of(slot->Run_id));
        }
    }
    lemma_lists_its_table(db, Table::FlowRuns, slot_of, given);
    if query_statement(Query::Runs).gives(db, Query::Runs.bound(), given) {
        let rows = choose|rows: Seq<(Seq<char>, Seq<char>)>| #[trigger]
            lists(db, slot_of, rows) && given == given_pairs(rows);
        assert(answers_with_rows(db, Query::Runs, rows));
    }
    if exists|rows: Seq<(Seq<char>, Seq<char>)>| #[trigger]
        answers_with_rows(db, Query::Runs, rows) && given == given_pairs(rows) {
        let rows = choose|rows: Seq<(Seq<char>, Seq<char>)>| #[trigger]
            answers_with_rows(db, Query::Runs, rows) && given == given_pairs(rows);
        assert(lists(db, slot_of, rows));
    }
}

/// Whatever the database holds, running the text that lists the messages of a chat with its
/// bound value gives the messages of that chat, all of them, in the order of their numbers.
pub proof fn law_query_lists_the_messages(
    chat_id: String,
    db: Database,
    given: Seq<Seq<ParamValue>>,
)
    ensures
        ({
            let query = Query::Messages { chat_id };
            let statement = query_statement(query);
            &&& query.sql_text() == statement.text()
            &&& statement.gives(db, query.bound(), given) <==> exists|bodies: Seq<Seq<char>>|
                #[trigger]
                answers_with_bodies(db, query, bodies) && given == given_texts(bodies)
        }),
{
    let query = Query::Messages { chat_id };
    law_query_is_written_as_its_statement(query);
    let statement = query_statement(query);
    let bound = query.bound();
    let columns = seq![Column::Body];
    let conditions = statement->Select_conditions;
    assert forall|slot: Slot, body: Seq<char>|
        #![trigger picks(Table::Messages, conditions, bound, slot, body)]
        picks(Table::Messages, conditions, bound, slot, body) == is_message_from(
            slot,
            chat_id@,
            0,
        ) by {
        if picks(Table::Messages, conditions, bound, slot, body) {
            assert(conditions[0].holds(slot, body, bound));
        }
    }
    if statement.gives(db, bound, given) {
        let slots = choose|slots: Seq<Slot>| statement.gives_of(db, bound, slots, given);
        let seqs = Seq::new(slots.len(), |i: int| slots[i]->seq);
        let bodies = Seq::new(slots.len(), |i: int| db[slots[i]]);
        assert forall|i: int| 0 <= i < slots.len() implies (#[trigger] slots[i]) == (
        Slot::Message { chat_id: chat_id@, seq: seqs[i] }) && db.contains_key(slots[i])
            && given[i] == seq![ParamValue::Text(bodies[i])] by {
            assert(slots.contains(slots[i]));
            assert(is_reading(columns, slots[i], db[slots[i]], given[i]));
            assert(cell(slots[i], db[slots[i]], columns[0]) == Some(given[i][0]));
            assert(given[i] =~= seq![ParamValue::Text(bodies[i])]);
        }
        assert forall|i: int, j: int|
            #![trigger seqs[i], seqs[j]]
            0 <= i < j < seqs.len() implies seqs[i] < seqs[j] by {
            assert(slots[i] != slots[j]);
        }
        assert forall|i: int|
            #![trigger seqs[i]]
            0 <= i < seqs.len() implies db.contains_key(
            Slot::Message { chat_id: chat_id@, seq: seqs[i] },
        ) && db[Slot::Message { chat_id: chat_id@, seq: seqs[i] }] == bodies[i] by {
            assert(slots[i] == (Slot::Message { chat_id: chat_id@, seq: seqs[i] }));
        }
        assert forall|seq: nat| #[trigger]
            db.contains_key(Slot::Message { chat_id: chat_id@, seq }) implies seqs.contains(
            seq,
        ) by {
            let slot = Slot::Message { chat_id: chat_id@, seq };
            assert(slots.contains(slot));
            let i = choose|i: int| 0 <= i < slots.len() && slots[i] == slot;
            assert(seqs[i] == seq);
        }
        assert(lists_messages_at(db, chat_id@, seqs, bodies));
        assert(answers_with_bodies(db, query, bodies));
        assert(given =~= given_texts(bodies));
    }
    if exists|bodies: Seq<Seq<char>>| #[trigger]
        answers_with_bodies(db, query, bodies) && given == given_texts(bodies) {
        let bodies = choose|bodies: Seq<Seq<char>>| #[trigger]
            answers_with_bodies(db, query, bodies) && given == given_texts(bodies);
        let seqs = choose|seqs: Seq<nat>| lists_messages_at(db, chat_id@, seqs, bodies);
        let slots = Seq::new(
            seqs.len(),
            |i: int| Slot::Message { chat_id: chat_id@, seq: seqs[i] },
        );
        assert forall|i: int, j: int|
            0 <= i < slots.len() && 0 <= j < slots.len() && i != j implies slots[i] != slots[j] by {
            if i < j {
                assert(seqs[i] < seqs[j]);
            } else {
                assert(seqs[j] < seqs[i]);
            }
        }
        assert forall|slot: Slot| #[trigger] slots.contains(slot) <==> db.contains_key(slot)
            && picks(Table::Messages, conditions, bound, slot, db[slot]) by {
            if slots.contains(slot) {
                let i = choose|i: int| 0 <= i < slots.len() && slots[i] == slot;
                assert(db.contains_key(Slot::Message { chat_id: chat_id@, seq: seqs[i] }));
            }
            if db.contains_key(slot) && is_message_from(slot, chat_id@, 0) {
                let seq = slot->seq;
                assert(slot == (Slot::Message { chat_id: chat_id@, seq }));
                assert(seqs.contains(seq));
                let i = choose|i: int| 0 <= i < seqs.len() && seqs[i] == seq;
                assert(slots[i] == slot);
            }
        }
        assert forall|i: int|
            #![trigger given[i]]
            #![trigger slots[i]]
            0 <= i < slots.len() implies is_reading(columns, slots[i], db[slots[i]], given[i]) by {
            assert(db[Slot::Message { chat_id: chat_id@, seq: seqs[i] }] == bodies[i]);
            assert(given[i] == seq![ParamValue::Text(bodies[i])]);
        }
        assert forall|i: int, j: int|
            #![trigger slots[i], slots[j]]
            0 <= i < j < slots.len() implies is_before(
            cell(slots[i], db[slots[i]], Column::Position),
            cell(slots[j], db[slots[j]], Column::Position),
        ) by {
            assert(seqs[i] < seqs[j]);
        }
        assert(statement.gives_of(db, bound, slots, given));
    }
}

// Opening.

/// A column of texts that may be empty.
pub open spec fn text_column(column: Column) -> Declared {
    Declared { column, kind: Kind::Text, not_null: false, primary: false }
}

/// A column that is filled in every row.
pub open spec fn full_column(column: Column, kind: Kind) -> Declared {
    Declared { column, kind, not_null: true, primary: false }
}

/// The column that is the primary key.
pub open spec fn key_column(column: Column) -> Declared {
    Declared { column, kind: Kind::Text, not_null: false, primary: true }
}

/// What a table is made with.
pub open spec fn definition_of(table: Table) -> Definition {
    match table {
        Table::Meta => Definition {
            columns: seq![key_column(Column::K), text_column(Column::V)],
            key: None,
        },
        Table::Docs => Definition {
            columns: seq![key_column(Column::Name), full_column(Column::Body, Kind::Text)],
            key: None,
        },
        Table::Chats | Table::FlowRuns => Definition {
            columns: seq![key_column(Column::Id), full_column(Column::Body, Kind::Text)],
            key: None,
        },
        Table::Messages => Definition {
            columns: seq![
                full_column(Column::ChatId, Kind::Text),
                full_column(Column::Position, Kind::Integer),
                full_column(Column::Body, Kind::Text),
            ],
            key: Some(seq![Column::ChatId, Column::Position]),
        },
    }
}

/// The statement that makes a table where it is missing.
pub open spec fn create(table: Table) -> Command {
    Command::Create { table, definition: definition_of(table) }
}

/// The batch that opens a database.
pub open spec fn opening() -> Seq<Command> {
    seq![
        Command::Pragma { setting: Setting::WriteAhead },
        Command::Pragma { setting: Setting::Patience },
        Command::Pragma { setting: Setting::NormalSync },
        create(Table::Meta),
        create(Table::Chats),
        create(Table::Messages),
        create(Table::FlowRuns),
        create(Table::Docs),
    ]
}

proof fn lemma_create_meta()
    ensures
        create(Table::Meta).text() == "CREATE TABLE IF NOT EXISTS meta(k TEXT PRIMARY KEY, v TEXT);"@,
{
    let definition = definition_of(Table::Meta);
    let a = "k"@ + " TEXT"@ + Seq::<char>::empty() + " PRIMARY KEY"@;
    let b = "v"@ + " TEXT"@ + Seq::<char>::empty() + Seq::<char>::empty();
    assert(definition.columns.map_values(|d: Declared| d.text()) =~= seq![a, b]);
    lemma_joined(a, b, b, ", "@);
    reveal_strlit("CREATE TABLE IF NOT EXISTS meta(k TEXT PRIMARY KEY, v TEXT);");
    reveal_strlit("CREATE TABLE IF NOT EXISTS ");
    reveal_strlit("meta");
    reveal_strlit("(");
    reveal_strlit(");");
    reveal_strlit(", ");
    reveal_strlit(" TEXT");
    reveal_strlit(" NOT NULL");
    reveal_strlit(" PRIMARY KEY");
    reveal_strlit("k");
    reveal_strlit("v");
    assert(create(Table::Meta).text() =~= "CREATE TABLE IF NOT EXISTS meta(k TEXT PRIMARY KEY, v TEXT);"@);
}

proof fn lemma_create_chats()
    ensures
        create(Table::Chats).text() == "CREATE TABLE IF NOT EXISTS chats(id TEXT PRIMARY KEY, body TEXT NOT NULL);"@,
{
    let definition = definition_of(Table::Chats);
    let a = "id"@ + " TEXT"@ + Seq::<char>::empty() + " PRIMARY KEY"@;
    let b = "body"@ + " TEXT"@ + " NOT NULL"@ + Seq::<char>::empty();
    assert(definition.columns.map_values(|d: Declared| d.text()) =~= seq![a, b]);
    lemma_joined(a, b, b, ", "@);
    reveal_strlit("CREATE TABLE IF NOT EXISTS chats(id TEXT PRIMARY KEY, body TEXT NOT NULL);");
    reveal_strlit("CREATE TABLE IF NOT EXISTS ");
    reveal_strlit("chats");
    reveal_strlit("(");
    reveal_strlit(");");
    reveal_strlit(", ");
    reveal_strlit(" TEXT");
    reveal_strlit(" NOT NULL");
    reveal_strlit(" PRIMARY KEY");
    reveal_strlit("id");
    reveal_strlit("body");
    assert(create(Table::Chats).text() =~= "CREATE TABLE IF NOT EXISTS chats(id TEXT PRIMARY KEY, body TEXT NOT NULL);"@);
}

proof fn lemma_create_messages()
    ensures
        create(Table::Messages).text() == "CREATE TABLE IF NOT EXISTS messages(chat_id TEXT NOT NULL, seq INTEGER NOT NULL, body TEXT NOT NULL, PRIMARY KEY(chat_id, seq));"@,
{
    let definition = definition_of(Table::Messages);
    let a = "chat_id"@ + " TEXT"@ + " NOT NULL"@ + Seq::<char>::empty();
    let b = "seq"@ + " INTEGER"@ + " NOT NULL"@ + Seq::<char>::empty();
    let c = "body"@ + " TEXT"@ + " NOT NULL"@ + Seq::<char>::empty();
    assert(definition.columns.map_values(|d: Declared| d.text()) =~= seq![a, b, c]);
    lemma_joined(a, b, c, ", "@);
    assert(seq![Column::ChatId, Column::Position].map_values(|c: Column| c.text()) =~= seq![
        "chat_id"@,
        "seq"@,
    ]);
    lemma_joined("chat_id"@, "seq"@, "seq"@, ", "@);
    reveal_strlit("CREATE TABLE IF NOT EXISTS messages(chat_id TEXT NOT NULL, seq INTEGER NOT NULL, body TEXT NOT NULL, PRIMARY KEY(chat_id, seq));");
    reveal_strlit("CREATE TABLE IF NOT EXISTS ");
    reveal_strlit("messages");
    reveal_strlit("(");
    reveal_strlit(");");
    reveal_strlit(", ");
    reveal_strlit(" TEXT");
    reveal_strlit(" NOT NULL");
    reveal_strlit(" PRIMARY KEY");
    reveal_strlit("chat_id");
    reveal_strlit("seq");
    reveal_strlit("body");
    reveal_strlit(" INTEGER");
    reveal_strlit(", PRIMARY KEY(");
    reveal_strlit(")");
    assert(create(Table::Messages).text() =~= "CREATE TABLE IF NOT EXISTS messages(chat_id TEXT NOT NULL, seq INTEGER NOT NULL, body TEXT NOT NULL, PRIMARY KEY(chat_id, seq));"@);
}

proof fn lemma_create_flow_runs()
    ensures
        create(Table::FlowRuns).text() == "CREATE TABLE IF NOT EXISTS flow_runs(id TEXT PRIMARY KEY, body TEXT NOT NULL);"@,
{
    let definition = definition_of(Table::FlowRuns);
    let a = "id"@ + " TEXT"@ + Seq::<char>::empty() + " PRIMARY KEY"@;
    let b = "body"@ + " TEXT"@ + " NOT NULL"@ + Seq::<char>::empty();
    assert(definition.columns.map_values(|d: Declared| d.text()) =~= seq![a, b]);
    lemma_joined(a, b, b, ", "@);
    reveal_strlit("CREATE TABLE IF NOT EXISTS flow_runs(id TEXT PRIMARY KEY, body TEXT NOT NULL);");
    reveal_strlit("CREATE TABLE IF NOT EXISTS ");
    reveal_strlit("flow_runs");
    reveal_strlit("(");
    reveal_strlit(");");
    reveal_strlit(", ");
    reveal_strlit(" TEXT");
    reveal_strlit(" NOT NULL");
    reveal_strlit(" PRIMARY KEY");
    reveal_strlit("id");
    reveal_strlit("body");
    assert(create(Table::FlowRuns).text() =~= "CREATE TABLE IF NOT EXISTS flow_runs(id TEXT PRIMARY KEY, body TEXT NOT NULL);"@);
}

proof fn lemma_create_docs()
    ensures
        create(Table::Docs).text() == "CREATE TABLE IF NOT EXISTS docs(name TEXT PRIMARY KEY, body TEXT NOT NULL);"@,
{
    let definition = definition_of(Table::Docs);
    let a = "name"@ + " TEXT"@ + Seq::<char>::empty() + " PRIMARY KEY"@;
    let b = "body"@ + " TEXT"@ + " NOT NULL"@ + Seq::<char>::empty();
    assert(definition.columns.map_values(|d: Declared| d.text()) =~= seq![a, b]);
    lemma_joined(a, b, b, ", "@);
    reveal_strlit("CREATE TABLE IF NOT EXISTS docs(name TEXT PRIMARY KEY, body TEXT NOT NULL);");
    reveal_strlit("CREATE TABLE IF NOT EXISTS ");
    reveal_strlit("docs");
    reveal_strlit("(");
    reveal_strlit(");");
    reveal_strlit(", ");
    reveal_strlit(" TEXT");
    reveal_strlit(" NOT NULL");
    reveal_strlit(" PRIMARY KEY");
    reveal_strlit("name");
    reveal_strlit("body");
    assert(create(Table::Docs).text() =~= "CREATE TABLE IF NOT EXISTS docs(name TEXT PRIMARY KEY, body TEXT NOT NULL);"@);
}

/// The texts of the batch, one by one.
pub open spec fn opening_texts() -> Seq<Seq<char>> {
    seq![
        "PRAGMA journal_mode=WAL;"@,
        "PRAGMA busy_timeout=5000;"@,
        "PRAGMA synchronous=NORMAL;"@,
        "CREATE TABLE IF NOT EXISTS meta(k TEXT PRIMARY KEY, v TEXT);"@,
        "CREATE TABLE IF NOT EXISTS chats(id TEXT PRIMARY KEY, body TEXT NOT NULL);"@,
        "CREATE TABLE IF NOT EXISTS messages(chat_id TEXT NOT NULL, seq INTEGER NOT NULL, body TEXT NOT NULL, PRIMARY KEY(chat_id, seq));"@,
        "CREATE TABLE IF NOT EXISTS flow_runs(id TEXT PRIMARY KEY, body TEXT NOT NULL);"@,
        "CREATE TABLE IF NOT EXISTS docs(name TEXT PRIMARY KEY, body TEXT NOT NULL);"@,
    ]
}

/// The batch in one text.
#[verifier::rlimit(60)]
proof fn lemma_opening_text()
    ensures
        schema_text() == "PRAGMA journal_mode=WAL;"@ + " "@ + "PRAGMA busy_timeout=5000;"@ + " "@ + "PRAGMA synchronous=NORMAL;"@ + " "@ + "CREATE TABLE IF NOT EXISTS meta(k TEXT PRIMARY KEY, v TEXT);"@ + " "@ + "CREATE TABLE IF NOT EXISTS chats(id TEXT PRIMARY KEY, body TEXT NOT NULL);"@ + " "@ + "CREATE TABLE IF NOT EXISTS messages(chat_id TEXT NOT NULL, seq INTEGER NOT NULL, body TEXT NOT NULL, PRIMARY KEY(chat_id, seq));"@ + " "@ + "CREATE TABLE IF NOT EXISTS flow_runs(id TEXT PRIMARY KEY, body TEXT NOT NULL);"@ + " "@ + "CREATE TABLE IF NOT EXISTS docs(name TEXT PRIMARY KEY, body TEXT NOT NULL);"@,
{
    reveal_strlit(" ");
    reveal_strlit("PRAGMA journal_mode=WAL; PRAGMA busy_timeout=5000; PRAGMA synchronous=NORMAL; CREATE TABLE IF NOT EXISTS meta(k TEXT PRIMARY KEY, v TEXT); CREATE TABLE IF NOT EXISTS chats(id TEXT PRIMARY KEY, body TEXT NOT NULL); CREATE TABLE IF NOT EXISTS messages(chat_id TEXT NOT NULL, seq INTEGER NOT NULL, body TEXT NOT NULL, PRIMARY KEY(chat_id, seq)); CREATE TABLE IF NOT EXISTS flow_runs(id TEXT PRIMARY KEY, body TEXT NOT NULL); CREATE TABLE IF NOT EXISTS docs(name TEXT PRIMARY KEY, body TEXT NOT NULL);");
    reveal_strlit("PRAGMA journal_mode=WAL;");
    reveal_strlit("PRAGMA busy_timeout=5000;");
    reveal_strlit("PRAGMA synchronous=NORMAL;");
    reveal_strlit("CREATE TABLE IF NOT EXISTS meta(k TEXT PRIMARY KEY, v TEXT);");
    reveal_strlit("CREATE TABLE IF NOT EXISTS chats(id TEXT PRIMARY KEY, body TEXT NOT NULL);");
    reveal_strlit("CREATE TABLE IF NOT EXISTS messages(chat_id TEXT NOT NULL, seq INTEGER NOT NULL, body TEXT NOT NULL, PRIMARY KEY(chat_id, seq));");
    reveal_strlit("CREATE TABLE IF NOT EXISTS flow_runs(id TEXT PRIMARY KEY, body TEXT NOT NULL);");
    reveal_strlit("CREATE TABLE IF NOT EXISTS docs(name TEXT PRIMARY KEY, body TEXT NOT NULL);");
    assert(schema_text() =~= "PRAGMA journal_mode=WAL;"@ + " "@ + "PRAGMA busy_timeout=5000;"@ + " "@ + "PRAGMA synchronous=NORMAL;"@ + " "@ + "CREATE TABLE IF NOT EXISTS meta(k TEXT PRIMARY KEY, v TEXT);"@ + " "@ + "CREATE TABLE IF NOT EXISTS chats(id TEXT PRIMARY KEY, body TEXT NOT NULL);"@ + " "@ + "CREATE TABLE IF NOT EXISTS messages(chat_id TEXT NOT NULL, seq INTEGER NOT NULL, body TEXT NOT NULL, PRIMARY KEY(chat_id, seq));"@ + " "@ + "CREATE TABLE IF NOT EXISTS flow_runs(id TEXT PRIMARY KEY, body TEXT NOT NULL);"@ + " "@ + "CREATE TABLE IF NOT EXISTS docs(name TEXT PRIMARY KEY, body TEXT NOT NULL);"@);
}

/// The batch, statement by statement.
proof fn lemma_opening_commands()
    ensures
        opening().map_values(|c: Command| c.text()) == opening_texts(),
{
    lemma_create_meta();
    lemma_create_chats();
    lemma_create_messages();
    lemma_create_flow_runs();
    lemma_create_docs();
    assert(opening().map_values(|c: Command| c.text()) =~= opening_texts());
}

/// Eight texts, written out.
proof fn lemma_joined_eight(texts: Seq<Seq<char>>, separator: Seq<char>)
    requires
        texts.len() == 8,
    ensures
        joined(texts, separator) == texts[0] + separator + texts[1] + separator + texts[2]
            + separator + texts[3] + separator + texts[4] + separator + texts[5] + separator
            + texts[6] + separator + texts[7],
{
    reveal_with_fuel(joined, 9);
    assert(texts.take(8) =~= texts);
    assert(texts.take(8).drop_last() =~= texts.take(7));
    assert(texts.take(7).drop_last() =~= texts.take(6));
    assert(texts.take(6).drop_last() =~= texts.take(5));
    assert(texts.take(5).drop_last() =~= texts.take(4));
    assert(texts.take(4).drop_last() =~= texts.take(3));
    assert(texts.take(3).drop_last() =~= texts.take(2));
    assert(texts.take(2).drop_last() =~= texts.take(1));
}

/// The text that opens a database is that of the batch: settings, and tables that are made
/// where they are missing. There is nothing else in it.
pub proof fn law_opening_is_written_as_its_batch()
    ensures
        schema_text() == batch_text(opening()),
{
    lemma_opening_text();
    lemma_opening_commands();
    lemma_joined_eight(opening_texts(), " "@);
}

/// Opening a database keeps every row that is there and every table that is there, sets what
/// is to be set, and makes the tables that are missing, each with the columns and the
/// primary key that the statements go by. So what it leaves is what opening is said to
/// leave, whether the database was there or not.
pub proof fn law_opening_does_its_effect(store: Store)
    ensures
        schema_text() == batch_text(opening()),
        batch_changes(opening(), store).rows == store.rows,
        opened(Some(store.rows)) == batch_changes(opening(), store).rows,
        opened(None) == batch_changes(opening(), new_store()).rows,
        forall|setting: Setting| #[trigger]
            batch_changes(opening(), store).settings.contains(setting),
        forall|table: Table| #[trigger]
            batch_changes(opening(), store).tables.contains_key(table) && (
            if store.tables.contains_key(table) {
                batch_changes(opening(), store).tables[table] == store.tables[table]
            } else {
                batch_changes(opening(), store).tables[table].declares(
                    columns_of(table),
                    key_of(table),
                )
            }),
{
    law_opening_is_written_as_its_batch();
    lemma_opened(store);
    lemma_opened(new_store());
    assert forall|table: Table| definition_of(table).declares(columns_of(table), key_of(table)) by {
        let definition = definition_of(table);
        assert(definition.columns.map_values(|d: Declared| d.column) =~= columns_of(table));
        if table == Table::Messages {
            assert(key_of(table) =~= seq![Column::ChatId, Column::Position]);
        }
    }
}

/// The database file after the batch, written out.
proof fn lemma_opened(store: Store)
    ensures
        ({
            let after = batch_changes(opening(), store);
            &&& after.rows == store.rows
            &&& forall|setting: Setting| #[trigger] after.settings.contains(setting)
            &&& forall|table: Table| #[trigger]
                after.tables.contains_key(table) && after.tables[table] == (
                if store.tables.contains_key(table) {
                    store.tables[table]
                } else {
                    definition_of(table)
                })
        }),
{
    let batch = opening();
    assert(batch.take(1).drop_last() =~= batch.take(0));
    assert(batch.take(2).drop_last() =~= batch.take(1));
    assert(batch.take(3).drop_last() =~= batch.take(2));
    assert(batch.take(4).drop_last() =~= batch.take(3));
    assert(batch.take(5).drop_last() =~= batch.take(4));
    assert(batch.take(6).drop_last() =~= batch.take(5));
    assert(batch.take(7).drop_last() =~= batch.take(6));
    assert(batch.take(8).drop_last() =~= batch.take(7));
    assert(batch.take(8) =~= batch);
    assert(batch_changes(batch.take(0), store) == store);
    reveal_with_fuel(batch_changes, 9);
}

// Several statements.

/// Whether running the text of a write with its bound values leaves the database so.
pub open spec fn runs_to(write: Write, db: Database, after: Database) -> bool {
    &&& write.sql_text() == write_statement(write).text()
    &&& write_statement(write).leaves(db, write.bound(), after)
}

/// Whether running the text of a query with its bound values gives these rows.
pub open spec fn reads(query: Query, db: Database, given: Seq<Seq<ParamValue>>) -> bool {
    &&& query.sql_text() == query_statement(query).text()
    &&& query_statement(query).gives(db, query.bound(), given)
}

/// Running the text of a write works out in one way, and that is what the write is said to
/// leave.
pub proof fn law_write_runs_to_its_effect(write: Write, db: Database, after: Database)
    ensures
        runs_to(write, db, after) <==> after == effect(db, write),
{
    law_write_does_its_effect(write, db, after);
}

/// What a statement that reads one row binds is what a put of the same key binds before the
/// body, and that is the whole body.
pub proof fn law_put_and_read_bind_the_same_key(write: Write, query: Query)
    requires
        write is Put,
        query is Body,
        write->Put_key@ == query->key@,
    ensures
        write.bound() == query.bound().push(ParamValue::Text(write->body@)),
        write.bound().last() == ParamValue::Text(write->body@),
{
}

/// What is put under a key is read back under it, word for word, whatever the key and the
/// body are.
pub proof fn law_row_put_is_read_back(
    write: Write,
    query: Query,
    db: Database,
    after: Database,
    given: Seq<Seq<ParamValue>>,
)
    requires
        write is Put,
        query is Body,
        write->Put_key@ == query->key@,
        write_statement(write).leaves(db, write.bound(), after),
        query_statement(query).gives(after, query.bound(), given),
    ensures
        runs_to(write, db, after),
        reads(query, after, given),
        given == seq![seq![ParamValue::Text(write->body@)]],
{
    law_write_does_its_effect(write, db, after);
    law_query_reads_its_row(query->key, after, given);
}

/// What is deleted under a key is not read back under it.
pub proof fn law_row_deleted_is_not_read_back(
    write: Write,
    query: Query,
    db: Database,
    after: Database,
    given: Seq<Seq<ParamValue>>,
)
    requires
        write is Delete,
        query is Body,
        write->Delete_key@ == query->key@,
        write_statement(write).leaves(db, write.bound(), after),
        query_statement(query).gives(after, query.bound(), given),
    ensures
        runs_to(write, db, after),
        reads(query, after, given),
        given.len() == 0,
{
    law_write_does_its_effect(write, db, after);
    law_query_reads_its_row(query->key, after, given);
}

/// After a trim a chat has no message from the position on, however many it had, and every
/// other row is as it was.
pub proof fn law_trimmed_messages_are_gone(write: Write, db: Database, after: Database, slot: Slot)
    requires
        write is TrimMessages,
        write_statement(write).leaves(db, write.bound(), after),
    ensures
        runs_to(write, db, after),
        row(after, slot) == match slot {
            Slot::Message { chat_id, seq } => if chat_id == write->chat_id@ && seq >= write->len {
                None
            } else {
                row(db, slot)
            },
            _ => row(db, slot),
        },
{
    law_write_does_its_effect(write, db, after);
}

/// Opening a database again changes nothing of what a statement reads.
pub proof fn law_reading_is_the_same_after_opening(
    store: Store,
    query: Query,
    given: Seq<Seq<ParamValue>>,
)
    ensures
        schema_text() == batch_text(opening()),
        reads(query, batch_changes(opening(), store).rows, given) == reads(
            query,
            store.rows,
            given,
        ),
{
    law_opening_does_its_effect(store);
}

/// What is bound stands for its text or number, and nothing is left out of it.
pub proof fn law_bound_values_are_whole(params: Seq<Param>)
    ensures
        param_values(params).len() == params.len(),
        forall|i: int|
            0 <= i < params.len() ==> #[trigger] param_values(params)[i] == match params[i] {
                Param::Text(text) => ParamValue::Text(text@),
                Param::Integer(number) => ParamValue::Integer(number as nat),
            },
{
}

/// A key stands for the row of its table with its whole values.
pub proof fn law_keys_are_whole(key: Key)
    ensures
        match key {
            Key::Meta { key: k } => key@ is Meta && key@->key == k@,
            Key::Doc { name } => key@ is Doc && key@->name == name@,
            Key::Chat { id } => key@ is Chat && key@->Chat_id == id@,
            Key::Message { chat_id, seq } => key@ is Message && key@->chat_id == chat_id@
                && key@->seq == seq,
            Key::Run { id } => key@ is Run && key@->Run_id == id@,
        },
{
}

} // verus!
