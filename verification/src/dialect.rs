//! The SQL that `agent.db` is spoken to in: how a statement is written, and what SQLite
//! does when it is run.
//!
//! A statement is built from the names of tables and columns and from marks for bound
//! values alone. What it does is said of the columns of each row: nothing here knows which
//! operation a statement serves. A number that SQLite has no room for cannot be bound, so a
//! statement with one is not run.

use vstd::prelude::*;

use crate::model::{Database, Slot};
use crate::sql::{ParamValue, Table};

verus! {

/// A column of a table.
pub enum Column {
    K,
    V,
    Name,
    Id,
    ChatId,
    Position,
    Body,
}

/// The place of a bound value.
pub enum Mark {
    First,
    Second,
    Third,
}

/// How a column is held against a bound value.
pub enum Test {
    Is,
    AtLeast,
}

/// A condition on a row.
pub struct Condition {
    pub column: Column,
    pub test: Test,
    pub mark: Mark,
}

/// A statement with marks for its bound values.
pub enum Statement {
    /// Adds a row, or sets one column of the row with the same primary key.
    Upsert {
        table: Table,
        columns: Seq<Column>,
        values: Seq<Mark>,
        target: Seq<Column>,
        set: Column,
    },
    /// Removes the rows that meet all conditions.
    Delete { table: Table, conditions: Seq<Condition> },
    /// Reads the rows that meet all conditions.
    Select {
        columns: Seq<Column>,
        table: Table,
        conditions: Seq<Condition>,
        order: Option<Column>,
    },
}

/// What a column may hold.
pub enum Kind {
    Text,
    Integer,
}

/// A column as a table declares it.
pub struct Declared {
    pub column: Column,
    pub kind: Kind,
    pub not_null: bool,
    pub primary: bool,
}

/// What a table is made with: its columns, and the primary key where that is not one
/// column that is declared so.
pub struct Definition {
    pub columns: Seq<Declared>,
    pub key: Option<Seq<Column>>,
}

/// A setting of a database.
pub enum Setting {
    /// Write-ahead logging.
    WriteAhead,
    /// A busy database is waited for, five seconds at most.
    Patience,
    /// The disk is waited for at the moments that matter.
    NormalSync,
}

/// A statement without bound values, for a database that has just been opened.
pub enum Command {
    /// Changes a setting.
    Pragma { setting: Setting },
    /// Makes a table where it is missing.
    Create { table: Table, definition: Definition },
}

/// A database file: its settings, its tables, and the rows in them.
pub struct Store {
    pub settings: Set<Setting>,
    pub tables: Map<Table, Definition>,
    pub rows: Database,
}

// How statements are written.

/// Texts with a separator between each two.
pub open spec fn joined(parts: Seq<Seq<char>>, separator: Seq<char>) -> Seq<char>
    decreases parts.len(),
{
    if parts.len() == 0 {
        Seq::empty()
    } else if parts.len() == 1 {
        parts[0]
    } else {
        joined(parts.drop_last(), separator) + separator + parts.last()
    }
}

/// The name of a table.
pub open spec fn table_name(table: Table) -> Seq<char> {
    match table {
        Table::Meta => "meta"@,
        Table::Docs => "docs"@,
        Table::Chats => "chats"@,
        Table::Messages => "messages"@,
        Table::FlowRuns => "flow_runs"@,
    }
}

impl Column {
    pub open spec fn text(self) -> Seq<char> {
        match self {
            Column::K => "k"@,
            Column::V => "v"@,
            Column::Name => "name"@,
            Column::Id => "id"@,
            Column::ChatId => "chat_id"@,
            Column::Position => "seq"@,
            Column::Body => "body"@,
        }
    }
}

impl Column {
    /// What the column holds: positions are numbers, everything else is text.
    pub open spec fn kind(self) -> Kind {
        match self {
            Column::Position => Kind::Integer,
            _ => Kind::Text,
        }
    }
}

impl Mark {
    pub open spec fn text(self) -> Seq<char> {
        match self {
            Mark::First => "?1"@,
            Mark::Second => "?2"@,
            Mark::Third => "?3"@,
        }
    }

    /// Which of the bound values it stands for.
    pub open spec fn index(self) -> int {
        match self {
            Mark::First => 0,
            Mark::Second => 1,
            Mark::Third => 2,
        }
    }
}

impl Test {
    pub open spec fn text(self) -> Seq<char> {
        match self {
            Test::Is => "="@,
            Test::AtLeast => ">="@,
        }
    }
}

/// Columns in a list.
pub open spec fn column_list(columns: Seq<Column>) -> Seq<char> {
    joined(columns.map_values(|c: Column| c.text()), ", "@)
}

/// Marks in a list.
pub open spec fn mark_list(marks: Seq<Mark>) -> Seq<char> {
    joined(marks.map_values(|m: Mark| m.text()), ", "@)
}

/// Conditions that are all to be met.
pub open spec fn condition_list(conditions: Seq<Condition>) -> Seq<char> {
    joined(conditions.map_values(|c: Condition| c.text()), " AND "@)
}

impl Condition {
    pub open spec fn text(self) -> Seq<char> {
        self.column.text() + self.test.text() + self.mark.text()
    }
}

impl Statement {
    pub open spec fn text(self) -> Seq<char> {
        match self {
            Statement::Upsert { table, columns, values, target, set } => "INSERT INTO "@
                + table_name(table) + "("@ + column_list(columns) + ") VALUES("@ + mark_list(values)
                + ") ON CONFLICT("@ + column_list(target) + ") DO UPDATE SET "@ + set.text()
                + "=excluded."@ + set.text(),
            Statement::Delete { table, conditions } => "DELETE FROM "@ + table_name(table)
                + " WHERE "@ + condition_list(conditions),
            Statement::Select { columns, table, conditions, order } => "SELECT "@ + column_list(
                columns,
            ) + " FROM "@ + table_name(table) + (if conditions.len() == 0 {
                Seq::empty()
            } else {
                " WHERE "@ + condition_list(conditions)
            }) + (match order {
                Some(column) => " ORDER BY "@ + column.text(),
                None => Seq::empty(),
            }),
        }
    }
}

impl Declared {
    pub open spec fn text(self) -> Seq<char> {
        self.column.text() + (match self.kind {
            Kind::Text => " TEXT"@,
            Kind::Integer => " INTEGER"@,
        }) + (if self.not_null {
            " NOT NULL"@
        } else {
            Seq::empty()
        }) + (if self.primary {
            " PRIMARY KEY"@
        } else {
            Seq::empty()
        })
    }
}

impl Definition {
    pub open spec fn text(self) -> Seq<char> {
        joined(self.columns.map_values(|d: Declared| d.text()), ", "@) + (match self.key {
            Some(columns) => ", PRIMARY KEY("@ + column_list(columns) + ")"@,
            None => Seq::empty(),
        })
    }

    /// Whether the columns are those that are listed, each for what it holds, and the
    /// primary key is `key`.
    pub open spec fn declares(self, columns: Seq<Column>, key: Seq<Column>) -> bool {
        &&& self.columns.map_values(|d: Declared| d.column) == columns
        &&& forall|i: int|
            0 <= i < self.columns.len() ==> (#[trigger] self.columns[i]).kind
                == self.columns[i].column.kind()
        &&& match self.key {
            Some(own) => own == key && forall|i: int|
                0 <= i < self.columns.len() ==> !(#[trigger] self.columns[i]).primary,
            None => key.len() == 1 && forall|i: int|
                0 <= i < self.columns.len() ==> (#[trigger] self.columns[i]).primary == (
                self.columns[i].column == key[0]),
        }
    }
}

impl Command {
    pub open spec fn text(self) -> Seq<char> {
        match self {
            Command::Pragma { setting: Setting::WriteAhead } => "PRAGMA journal_mode=WAL;"@,
            Command::Pragma { setting: Setting::Patience } => "PRAGMA busy_timeout=5000;"@,
            Command::Pragma { setting: Setting::NormalSync } => "PRAGMA synchronous=NORMAL;"@,
            Command::Create { table, definition } => "CREATE TABLE IF NOT EXISTS "@ + table_name(
                table,
            ) + "("@ + definition.text() + ");"@,
        }
    }
}

/// A batch: its statements one after the other.
pub open spec fn batch_text(batch: Seq<Command>) -> Seq<char> {
    joined(batch.map_values(|c: Command| c.text()), " "@)
}

// What statements do.

/// What a row has in a column. A row of another table has nothing there.
pub open spec fn cell(slot: Slot, body: Seq<char>, column: Column) -> Option<ParamValue> {
    match (slot, column) {
        (Slot::Meta { key }, Column::K) => Some(ParamValue::Text(key)),
        (Slot::Meta { .. }, Column::V) => Some(ParamValue::Text(body)),
        (Slot::Doc { name }, Column::Name) => Some(ParamValue::Text(name)),
        (Slot::Doc { .. }, Column::Body) => Some(ParamValue::Text(body)),
        (Slot::Chat { id }, Column::Id) => Some(ParamValue::Text(id)),
        (Slot::Chat { .. }, Column::Body) => Some(ParamValue::Text(body)),
        (Slot::Message { chat_id, .. }, Column::ChatId) => Some(ParamValue::Text(chat_id)),
        (Slot::Message { seq, .. }, Column::Position) => Some(ParamValue::Integer(seq)),
        (Slot::Message { .. }, Column::Body) => Some(ParamValue::Text(body)),
        (Slot::Run { id }, Column::Id) => Some(ParamValue::Text(id)),
        (Slot::Run { .. }, Column::Body) => Some(ParamValue::Text(body)),
        _ => None,
    }
}

/// Whether a row is one of a table.
pub open spec fn is_in(slot: Slot, table: Table) -> bool {
    match table {
        Table::Meta => slot is Meta,
        Table::Docs => slot is Doc,
        Table::Chats => slot is Chat,
        Table::Messages => slot is Message,
        Table::FlowRuns => slot is Run,
    }
}

/// The columns of a table.
pub open spec fn columns_of(table: Table) -> Seq<Column> {
    match table {
        Table::Meta => seq![Column::K, Column::V],
        Table::Docs => seq![Column::Name, Column::Body],
        Table::Chats => seq![Column::Id, Column::Body],
        Table::Messages => seq![Column::ChatId, Column::Position, Column::Body],
        Table::FlowRuns => seq![Column::Id, Column::Body],
    }
}

/// The columns of a table's primary key: all but the last.
pub open spec fn key_of(table: Table) -> Seq<Column> {
    columns_of(table).drop_last()
}

impl Condition {
    /// Whether a row meets the condition.
    pub open spec fn holds(self, slot: Slot, body: Seq<char>, bound: Seq<ParamValue>) -> bool {
        let value = bound[self.mark.index()];
        match self.test {
            Test::Is => cell(slot, body, self.column) == Some(value),
            Test::AtLeast => match (cell(slot, body, self.column), value) {
                (Some(ParamValue::Integer(has)), ParamValue::Integer(least)) => has >= least,
                _ => false,
            },
        }
    }
}

/// Whether a row of a table meets all conditions.
pub open spec fn picks(
    table: Table,
    conditions: Seq<Condition>,
    bound: Seq<ParamValue>,
    slot: Slot,
    body: Seq<char>,
) -> bool {
    &&& is_in(slot, table)
    &&& forall|i: int|
        0 <= i < conditions.len() ==> (#[trigger] conditions[i]).holds(slot, body, bound)
}

/// Whether a row of a table has the bound values in the listed columns.
pub open spec fn is_row(
    table: Table,
    columns: Seq<Column>,
    values: Seq<Mark>,
    bound: Seq<ParamValue>,
    slot: Slot,
    body: Seq<char>,
) -> bool {
    &&& is_in(slot, table)
    &&& forall|i: int|
        0 <= i < columns.len() ==> cell(slot, body, #[trigger] columns[i]) == Some(
            bound[values[i].index()],
        )
}

/// Whether `after` is what adding a row leaves, where a row with the same primary key that
/// is there already is kept and only its column `set` is taken from the row to be added.
pub open spec fn adds(
    db: Database,
    slot: Slot,
    body: Seq<char>,
    set: Column,
    after: Database,
) -> bool {
    &&& after.contains_key(slot)
    &&& after.remove(slot) == db.remove(slot)
    &&& if db.contains_key(slot) {
        forall|column: Column| #[trigger]
            cell(slot, after[slot], column) == cell(
                slot,
                if column == set {
                    body
                } else {
                    db[slot]
                },
                column,
            )
    } else {
        after[slot] == body
    }
}

impl Statement {
    /// How many values are to be bound.
    pub open spec fn marks(self) -> nat {
        match self {
            Statement::Upsert { values, .. } => values.len(),
            Statement::Delete { conditions, .. } => conditions.len(),
            Statement::Select { conditions, .. } => conditions.len(),
        }
    }

    /// Whether the statement runs with the bound values and leaves the database so.
    pub open spec fn leaves(self, db: Database, bound: Seq<ParamValue>, after: Database) -> bool {
        &&& bound.len() == self.marks()
        &&& match self {
            Statement::Upsert { table, columns, values, target, set } => {
                &&& columns == columns_of(table)
                &&& values.len() == columns.len()
                &&& target == key_of(table)
                &&& exists|slot: Slot, body: Seq<char>|
                    is_row(table, columns, values, bound, slot, body) && #[trigger] adds(
                        db,
                        slot,
                        body,
                        set,
                        after,
                    )
            },
            Statement::Delete { table, conditions } => after == Map::new(
                |slot: Slot|
                    db.contains_key(slot) && !picks(table, conditions, bound, slot, db[slot]),
                |slot: Slot| db[slot],
            ),
            Statement::Select { .. } => after == db,
        }
    }

    /// Whether the statement runs with the bound values and gives the rows `given`, each by
    /// what it has in the columns that are read. Where no order is asked for, any will do.
    pub open spec fn gives(
        self,
        db: Database,
        bound: Seq<ParamValue>,
        given: Seq<Seq<ParamValue>>,
    ) -> bool {
        &&& bound.len() == self.marks()
        &&& exists|slots: Seq<Slot>| self.gives_of(db, bound, slots, given)
    }

    /// Whether the statement gives the rows at `slots`.
    pub open spec fn gives_of(
        self,
        db: Database,
        bound: Seq<ParamValue>,
        slots: Seq<Slot>,
        given: Seq<Seq<ParamValue>>,
    ) -> bool {
        match self {
            Statement::Select { columns, table, conditions, order } => {
                &&& slots.no_duplicates()
                &&& forall|slot: Slot| #[trigger]
                    slots.contains(slot) <==> db.contains_key(slot) && picks(
                        table,
                        conditions,
                        bound,
                        slot,
                        db[slot],
                    )
                &&& given.len() == slots.len()
                &&& forall|i: int|
                    #![trigger given[i]]
                    #![trigger slots[i]]
                    0 <= i < slots.len() ==> is_reading(columns, slots[i], db[slots[i]], given[i])
                &&& order matches Some(column) ==> forall|i: int, j: int|
                    #![trigger slots[i], slots[j]]
                    0 <= i < j < slots.len() ==> is_before(
                        cell(slots[i], db[slots[i]], column),
                        cell(slots[j], db[slots[j]], column),
                    )
            },
            _ => false,
        }
    }
}

/// Whether `values` are what a row has in the columns.
pub open spec fn is_reading(
    columns: Seq<Column>,
    slot: Slot,
    body: Seq<char>,
    values: Seq<ParamValue>,
) -> bool {
    &&& values.len() == columns.len()
    &&& forall|j: int|
        0 <= j < columns.len() ==> cell(slot, body, #[trigger] columns[j]) == Some(values[j])
}

/// Whether a number stands before or beside another in a rising order.
pub open spec fn is_before(first: Option<ParamValue>, second: Option<ParamValue>) -> bool {
    match (first, second) {
        (Some(ParamValue::Integer(a)), Some(ParamValue::Integer(b))) => a <= b,
        _ => false,
    }
}

impl Command {
    /// The database file after the statement.
    pub open spec fn changes(self, store: Store) -> Store {
        match self {
            Command::Pragma { setting } => Store {
                settings: store.settings.insert(setting),
                ..store
            },
            Command::Create { table, definition } => if store.tables.contains_key(table) {
                store
            } else {
                Store { tables: store.tables.insert(table, definition), ..store }
            },
        }
    }
}

/// The database file after a batch.
pub open spec fn batch_changes(batch: Seq<Command>, store: Store) -> Store
    decreases batch.len(),
{
    if batch.len() == 0 {
        store
    } else {
        batch.last().changes(batch_changes(batch.drop_last(), store))
    }
}

/// A database file that was just made.
pub open spec fn new_store() -> Store {
    Store { settings: Set::empty(), tables: Map::empty(), rows: Map::empty() }
}

} // verus!
