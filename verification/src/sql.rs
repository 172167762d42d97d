//! The statements that read and write `agent.db`, as text and parameters.

use vstd::prelude::*;

use crate::model::Slot;

verus! {

/// A table of `agent.db`. Each has a primary key, and one column that holds a text.
#[derive(Clone, Copy, Debug, PartialEq, Eq, Structural)]
pub enum Table {
    Meta,
    Docs,
    Chats,
    Messages,
    FlowRuns,
}

/// The primary key of a row, with its table.
pub enum Key {
    Meta { key: String },
    Doc { name: String },
    Chat { id: String },
    Message { chat_id: String, seq: u64 },
    Run { id: String },
}

/// A value bound to a statement's `?1`, `?2`, and so on.
pub enum Param {
    Text(String),
    Integer(u64),
}

/// What a bound value holds.
pub enum ParamValue {
    Text(Seq<char>),
    Integer(nat),
}

/// A statement that changes the database. What each does to it is
/// [`crate::model::effect`].
pub enum Write {
    /// Sets the text of a row, which is added where it is missing.
    Put { key: Key, body: String },
    /// Removes a row.
    Delete { key: Key },
    /// Removes the messages of a chat from position `len` on.
    TrimMessages { chat_id: String, len: u64 },
}

/// A statement that reads the database.
pub enum Query {
    /// The text of one row.
    Body { key: Key },
    /// The id and text of each chat.
    Chats,
    /// The id and text of each flow run.
    Runs,
    /// The messages of one chat, in order.
    Messages { chat_id: String },
}

impl View for Key {
    type V = Slot;

    open spec fn view(&self) -> Slot {
        match self {
            Key::Meta { key } => Slot::Meta { key: key@ },
            Key::Doc { name } => Slot::Doc { name: name@ },
            Key::Chat { id } => Slot::Chat { id: id@ },
            Key::Message { chat_id, seq } => Slot::Message { chat_id: chat_id@, seq: *seq as nat },
            Key::Run { id } => Slot::Run { id: id@ },
        }
    }
}

impl View for Param {
    type V = ParamValue;

    open spec fn view(&self) -> ParamValue {
        match self {
            Param::Text(s) => ParamValue::Text(s@),
            Param::Integer(n) => ParamValue::Integer(*n as nat),
        }
    }
}

/// What a sequence of bound values holds.
pub open spec fn param_values(params: Seq<Param>) -> Seq<ParamValue> {
    params.map_values(|p: Param| p@)
}

/// The text that opens a database: write-ahead logging, which a replicating sidecar
/// needs, a wait for a busy database, and the tables, where they are missing.
pub open spec fn schema_text() -> Seq<char> {
    "PRAGMA journal_mode=WAL; PRAGMA busy_timeout=5000; PRAGMA synchronous=NORMAL; CREATE TABLE IF NOT EXISTS meta(k TEXT PRIMARY KEY, v TEXT); CREATE TABLE IF NOT EXISTS chats(id TEXT PRIMARY KEY, body TEXT NOT NULL); CREATE TABLE IF NOT EXISTS messages(chat_id TEXT NOT NULL, seq INTEGER NOT NULL, body TEXT NOT NULL, PRIMARY KEY(chat_id, seq)); CREATE TABLE IF NOT EXISTS flow_runs(id TEXT PRIMARY KEY, body TEXT NOT NULL); CREATE TABLE IF NOT EXISTS docs(name TEXT PRIMARY KEY, body TEXT NOT NULL);"@
}

/// The batch to run on a connection that has just been opened. What it makes of a database
/// is [`crate::model::opened`].
pub fn schema() -> (text: &'static str)
    ensures
        text@ == schema_text(),
{
    "PRAGMA journal_mode=WAL; PRAGMA busy_timeout=5000; PRAGMA synchronous=NORMAL; CREATE TABLE IF NOT EXISTS meta(k TEXT PRIMARY KEY, v TEXT); CREATE TABLE IF NOT EXISTS chats(id TEXT PRIMARY KEY, body TEXT NOT NULL); CREATE TABLE IF NOT EXISTS messages(chat_id TEXT NOT NULL, seq INTEGER NOT NULL, body TEXT NOT NULL, PRIMARY KEY(chat_id, seq)); CREATE TABLE IF NOT EXISTS flow_runs(id TEXT PRIMARY KEY, body TEXT NOT NULL); CREATE TABLE IF NOT EXISTS docs(name TEXT PRIMARY KEY, body TEXT NOT NULL);"
}

impl Table {
    pub open spec fn name_text(self) -> Seq<char> {
        match self {
            Table::Meta => "meta"@,
            Table::Docs => "docs"@,
            Table::Chats => "chats"@,
            Table::Messages => "messages"@,
            Table::FlowRuns => "flow_runs"@,
        }
    }

    /// The columns of the primary key.
    pub open spec fn key_text(self) -> Seq<char> {
        match self {
            Table::Meta => "k"@,
            Table::Docs => "name"@,
            Table::Chats => "id"@,
            Table::Messages => "chat_id, seq"@,
            Table::FlowRuns => "id"@,
        }
    }

    /// The column that holds the text.
    pub open spec fn body_text(self) -> Seq<char> {
        match self {
            Table::Meta => "v"@,
            _ => "body"@,
        }
    }

    /// The marks for a primary key and a text.
    pub open spec fn marks_text(self) -> Seq<char> {
        match self {
            Table::Messages => "?1, ?2, ?3"@,
            _ => "?1, ?2"@,
        }
    }

    /// The condition that picks one row.
    pub open spec fn match_text(self) -> Seq<char> {
        match self {
            Table::Messages => "chat_id=?1 AND seq=?2"@,
            _ => self.key_text() + "=?1"@,
        }
    }

    fn name(self) -> (text: &'static str)
        ensures
            text@ == self.name_text(),
    {
        match self {
            Table::Meta => "meta",
            Table::Docs => "docs",
            Table::Chats => "chats",
            Table::Messages => "messages",
            Table::FlowRuns => "flow_runs",
        }
    }

    fn key(self) -> (text: &'static str)
        ensures
            text@ == self.key_text(),
    {
        match self {
            Table::Meta => "k",
            Table::Docs => "name",
            Table::Chats => "id",
            Table::Messages => "chat_id, seq",
            Table::FlowRuns => "id",
        }
    }

    fn body(self) -> (text: &'static str)
        ensures
            text@ == self.body_text(),
    {
        match self {
            Table::Meta => "v",
            _ => "body",
        }
    }

    fn marks(self) -> (text: &'static str)
        ensures
            text@ == self.marks_text(),
    {
        match self {
            Table::Messages => "?1, ?2, ?3",
            _ => "?1, ?2",
        }
    }

    fn matching(self) -> (text: String)
        ensures
            text@ == self.match_text(),
    {
        match self {
            Table::Messages => "chat_id=?1 AND seq=?2".to_owned(),
            _ => {
                let mut text = self.key().to_owned();
                text.append("=?1");
                text
            },
        }
    }

    /// The text that sets a row's text, or adds the row.
    pub open spec fn put_text(self) -> Seq<char> {
        "INSERT INTO "@ + self.name_text() + "("@ + self.key_text() + ", "@ + self.body_text()
            + ") VALUES("@ + self.marks_text() + ") ON CONFLICT("@ + self.key_text()
            + ") DO UPDATE SET "@ + self.body_text() + "=excluded."@ + self.body_text()
    }

    /// The text that removes a row.
    pub open spec fn delete_text(self) -> Seq<char> {
        "DELETE FROM "@ + self.name_text() + " WHERE "@ + self.match_text()
    }

    /// The text that reads a row's text.
    pub open spec fn read_text(self) -> Seq<char> {
        "SELECT "@ + self.body_text() + " FROM "@ + self.name_text() + " WHERE "@
            + self.match_text()
    }

    /// The text that lists the rows, each by its primary key and its text.
    pub open spec fn list_text(self) -> Seq<char> {
        "SELECT "@ + self.key_text() + ", "@ + self.body_text() + " FROM "@ + self.name_text()
    }

    fn put(self) -> (text: String)
        ensures
            text@ == self.put_text(),
    {
        let mut text = "INSERT INTO ".to_owned();
        text.append(self.name());
        text.append("(");
        text.append(self.key());
        text.append(", ");
        text.append(self.body());
        text.append(") VALUES(");
        text.append(self.marks());
        text.append(") ON CONFLICT(");
        text.append(self.key());
        text.append(") DO UPDATE SET ");
        text.append(self.body());
        text.append("=excluded.");
        text.append(self.body());
        text
    }

    fn delete(self) -> (text: String)
        ensures
            text@ == self.delete_text(),
    {
        let mut text = "DELETE FROM ".to_owned();
        text.append(self.name());
        text.append(" WHERE ");
        text.append(self.matching().as_str());
        text
    }

    fn read(self) -> (text: String)
        ensures
            text@ == self.read_text(),
    {
        let mut text = "SELECT ".to_owned();
        text.append(self.body());
        text.append(" FROM ");
        text.append(self.name());
        text.append(" WHERE ");
        text.append(self.matching().as_str());
        text
    }

    fn list(self) -> (text: String)
        ensures
            text@ == self.list_text(),
    {
        let mut text = "SELECT ".to_owned();
        text.append(self.key());
        text.append(", ");
        text.append(self.body());
        text.append(" FROM ");
        text.append(self.name());
        text
    }
}

impl Slot {
    /// The table that the row is in.
    pub open spec fn table(self) -> Table {
        match self {
            Slot::Meta { .. } => Table::Meta,
            Slot::Doc { .. } => Table::Docs,
            Slot::Chat { .. } => Table::Chats,
            Slot::Message { .. } => Table::Messages,
            Slot::Run { .. } => Table::FlowRuns,
        }
    }

    /// The values of the row's primary key, in the order of its columns.
    pub open spec fn values(self) -> Seq<ParamValue> {
        match self {
            Slot::Meta { key } => seq![ParamValue::Text(key)],
            Slot::Doc { name } => seq![ParamValue::Text(name)],
            Slot::Chat { id } => seq![ParamValue::Text(id)],
            Slot::Message { chat_id, seq } => seq![
                ParamValue::Text(chat_id),
                ParamValue::Integer(seq),
            ],
            Slot::Run { id } => seq![ParamValue::Text(id)],
        }
    }
}

impl Key {
    /// The table that the row is in.
    pub fn table(&self) -> (table: Table)
        ensures
            table == self@.table(),
    {
        match self {
            Key::Meta { .. } => Table::Meta,
            Key::Doc { .. } => Table::Docs,
            Key::Chat { .. } => Table::Chats,
            Key::Message { .. } => Table::Messages,
            Key::Run { .. } => Table::FlowRuns,
        }
    }

    /// The values of the primary key, to be bound in the order of its columns.
    pub fn params(&self) -> (params: Vec<Param>)
        ensures
            param_values(params@) == self@.values(),
    {
        let mut params: Vec<Param> = Vec::new();
        match self {
            Key::Meta { key } => params.push(Param::Text(key.clone())),
            Key::Doc { name } => params.push(Param::Text(name.clone())),
            Key::Chat { id } => params.push(Param::Text(id.clone())),
            Key::Message { chat_id, seq } => {
                params.push(Param::Text(chat_id.clone()));
                params.push(Param::Integer(*seq));
            },
            Key::Run { id } => params.push(Param::Text(id.clone())),
        }
        assert(param_values(params@) =~= self@.values());
        params
    }
}

impl Write {
    /// The statement's text.
    pub open spec fn sql_text(self) -> Seq<char> {
        match self {
            Write::Put { key, .. } => key@.table().put_text(),
            Write::Delete { key } => key@.table().delete_text(),
            Write::TrimMessages { .. } => "DELETE FROM messages WHERE chat_id=?1 AND seq>=?2"@,
        }
    }

    /// The values bound to the statement's parameters.
    pub open spec fn bound(self) -> Seq<ParamValue> {
        match self {
            Write::Put { key, body } => key@.values().push(ParamValue::Text(body@)),
            Write::Delete { key } => key@.values(),
            Write::TrimMessages { chat_id, len } => seq![
                ParamValue::Text(chat_id@),
                ParamValue::Integer(len as nat),
            ],
        }
    }

    /// The statement's text, with a mark for each parameter.
    pub fn sql(&self) -> (text: String)
        ensures
            text@ == self.sql_text(),
    {
        match self {
            Write::Put { key, .. } => key.table().put(),
            Write::Delete { key } => key.table().delete(),
            Write::TrimMessages { .. } =>
                "DELETE FROM messages WHERE chat_id=?1 AND seq>=?2".to_owned(),
        }
    }

    /// The values to bind, in the order of the marks.
    pub fn params(&self) -> (params: Vec<Param>)
        ensures
            param_values(params@) == self.bound(),
    {
        match self {
            Write::Put { key, body } => {
                let mut params = key.params();
                params.push(Param::Text(body.clone()));
                assert(param_values(params@) =~= self.bound());
                params
            },
            Write::Delete { key } => key.params(),
            Write::TrimMessages { chat_id, len } => {
                let params = vec![Param::Text(chat_id.clone()), Param::Integer(*len)];
                assert(param_values(params@) =~= self.bound());
                params
            },
        }
    }
}

impl Query {
    /// The statement's text.
    pub open spec fn sql_text(self) -> Seq<char> {
        match self {
            Query::Body { key } => key@.table().read_text(),
            Query::Chats => Table::Chats.list_text(),
            Query::Runs => Table::FlowRuns.list_text(),
            Query::Messages { .. } => "SELECT body FROM messages WHERE chat_id=?1 ORDER BY seq"@,
        }
    }

    /// The values bound to the statement's parameters.
    pub open spec fn bound(self) -> Seq<ParamValue> {
        match self {
            Query::Body { key } => key@.values(),
            Query::Chats | Query::Runs => seq![],
            Query::Messages { chat_id } => seq![ParamValue::Text(chat_id@)],
        }
    }

    /// The statement's text, with a mark for each parameter.
    pub fn sql(&self) -> (text: String)
        ensures
            text@ == self.sql_text(),
    {
        match self {
            Query::Body { key } => key.table().read(),
            Query::Chats => Table::Chats.list(),
            Query::Runs => Table::FlowRuns.list(),
            Query::Messages { .. } =>
                "SELECT body FROM messages WHERE chat_id=?1 ORDER BY seq".to_owned(),
        }
    }

    /// The values to bind, in the order of the marks.
    pub fn params(&self) -> (params: Vec<Param>)
        ensures
            param_values(params@) == self.bound(),
    {
        let mut params: Vec<Param> = Vec::new();
        match self {
            Query::Body { key } => {
                return key.params();
            },
            Query::Chats | Query::Runs => {},
            Query::Messages { chat_id } => params.push(Param::Text(chat_id.clone())),
        }
        assert(param_values(params@) =~= self.bound());
        params
    }
}

} // verus!
