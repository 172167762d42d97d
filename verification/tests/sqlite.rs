//! The statements against a real SQLite database.

use std::collections::BTreeMap;
use std::path::{Path, PathBuf};

use metalcraft_store::backend::Area;
use metalcraft_store::chats::{self, EncodedChat};
use metalcraft_store::disk::{DirEntry, FileStep};
use metalcraft_store::docs;
use metalcraft_store::files::{self, FileRead};
use metalcraft_store::flow_runs;
use metalcraft_store::migrate::{
    migrate_files_to_sqlite, LegacyChat, LegacyDoc, LegacyRun, LegacyState, Migration,
};
use metalcraft_store::paths::{default_db_path, FilePath, Folder};
use metalcraft_store::rows::{fetched, Fetched, Loaded, Reply, Warning};
use metalcraft_store::sql::{schema, Key, Param, Query, Write};
use rusqlite::types::Value as Bound;
use rusqlite::Connection;
use serde_json::Value;

fn at(data_dir: &Path, file: &FilePath) -> PathBuf {
    let folder = match file.folder.name() {
        Some(name) => data_dir.join(name),
        None => data_dir.to_path_buf(),
    };
    folder.join(&file.name)
}

fn temp_store() -> (tempfile::TempDir, Connection) {
    let dir = tempfile::tempdir().unwrap();
    let path = at(dir.path(), &default_db_path());
    let conn = open(&path);
    (dir, conn)
}

fn open(path: &Path) -> Connection {
    let conn = Connection::open(path).unwrap();
    conn.execute_batch(schema()).unwrap();
    conn
}

fn bound(params: Vec<Param>) -> Vec<Bound> {
    params
        .into_iter()
        .map(|p| match p {
            Param::Text(s) => Bound::Text(s),
            Param::Integer(n) => Bound::Integer(i64::try_from(n).unwrap()),
        })
        .collect()
}

fn run(conn: &mut Connection, writes: &[Write]) -> Result<(), String> {
    let tx = conn.transaction().map_err(|e| e.to_string())?;
    for w in writes {
        tx.execute(&w.sql(), rusqlite::params_from_iter(bound(w.params())))
            .map_err(|e| e.to_string())?;
    }
    tx.commit().map_err(|e| e.to_string())
}

fn put(key: Key, body: &str) -> Write {
    Write::Put { key, body: body.to_string() }
}

fn one(conn: &Connection, query: &Query) -> Result<String, String> {
    conn.query_row(&query.sql(), rusqlite::params_from_iter(bound(query.params())), |r| {
        r.get::<_, String>(0)
    })
    .map_err(|e| e.to_string())
}

fn pairs(conn: &Connection, query: &Query) -> Vec<(String, String)> {
    let mut stmt = conn.prepare(&query.sql()).unwrap();
    let rows = stmt
        .query_map(rusqlite::params_from_iter(bound(query.params())), |r| {
            Ok((r.get::<_, String>(0)?, r.get::<_, String>(1)?))
        })
        .unwrap();
    rows.map(|r| r.unwrap()).collect()
}

fn bodies(conn: &Connection, query: &Query) -> Result<Vec<Result<String, String>>, String> {
    let mut stmt = conn.prepare(&query.sql()).map_err(|e| e.to_string())?;
    let rows = stmt
        .query_map(rusqlite::params_from_iter(bound(query.params())), |r| r.get::<_, String>(0))
        .map_err(|e| e.to_string())?;
    Ok(rows.map(|r| r.map_err(|e| e.to_string())).collect())
}

fn parse(text: &str) -> Result<Value, String> {
    serde_json::from_str::<Value>(text).map_err(|e| e.to_string())
}

fn encode(chat: &Value) -> EncodedChat {
    match chats::split(&chat.to_string()) {
        Ok(encoded) => encoded,
        Err(e) => panic!("an object is taken apart: {e}"),
    }
}

fn decode(chat: &EncodedChat) -> Result<Value, String> {
    parse(&chats::join(chat)?)
}

fn save_chat(conn: &mut Connection, id: &str, chat: &Value) {
    let writes = match chats::save_text(id, Ok(chat.to_string())) {
        Ok(writes) => writes,
        Err(_) => panic!("a chat that was encoded is saved"),
    };
    let outcome = run(conn, &writes);
    assert!(chats::saved(id, outcome).is_none());
}

fn load_chats(conn: &Connection) -> Loaded<Value> {
    let mut rows = Vec::new();
    for (id, meta) in pairs(conn, &chats::list_query()) {
        let reply = bodies(conn, &chats::messages_query(&id));
        let read = chats::assemble(meta, reply).map(|chat| decode(&chat));
        rows.push(fetched(id, read));
    }
    chats::load_all(Reply::Rows(rows))
}

fn save_run(conn: &mut Connection, value: &Value) {
    let id = value["id"].as_str().unwrap();
    let writes = match flow_runs::save(id, Ok::<String, String>(value.to_string())) {
        Ok(writes) => writes,
        Err(_) => panic!("a run that was encoded is saved"),
    };
    let outcome = run(conn, &writes);
    assert!(flow_runs::saved(outcome).is_ok());
}

fn load_run(conn: &Connection, id: &str) -> Option<Value> {
    flow_runs::loaded(one(conn, &flow_runs::load(id)).map(|body| parse(&body)))
}

fn list_runs(conn: &Connection) -> Loaded<Value> {
    let rows = pairs(conn, &flow_runs::list_query())
        .into_iter()
        .map(|(id, body)| fetched(id, Ok(parse(&body))))
        .collect();
    flow_runs::list(Reply::Rows(rows))
}

fn get_doc(conn: &Connection, name: &str) -> Option<String> {
    docs::found(one(conn, &docs::get(name)))
}

fn put_doc(conn: &mut Connection, name: &str, body: &str) {
    let outcome = run(conn, &docs::put(name, body));
    assert!(docs::put_done(outcome).is_ok());
}

fn count(conn: &Connection, sql: &str) -> i64 {
    conn.query_row(sql, [], |r| r.get(0)).unwrap()
}

#[test]
fn chats_round_trip() {
    let (_dir, mut s) = temp_store();
    let chat = parse(
        r#"{"id": "c1", "persona_slug": "p", "model_name": "m", "cwd": "/", "created_at": "t"}"#,
    )
    .unwrap();

    assert!(load_chats(&s).items.is_empty());
    save_chat(&mut s, "c1", &chat);
    let all = load_chats(&s).items;
    assert_eq!(all.len(), 1);
    assert_eq!(all[0], chat);
    // upsert (no duplicate row)
    save_chat(&mut s, "c1", &chat);
    assert_eq!(load_chats(&s).items.len(), 1);
    let outcome = run(&mut s, &chats::delete("c1"));
    assert!(chats::deleted("c1", outcome).is_none());
    assert!(load_chats(&s).items.is_empty());
}

#[test]
fn flow_runs_round_trip() {
    let (_dir, mut s) = temp_store();
    let value = parse(
        r#"{"id": "r1", "flow_id": "f", "status": "paused", "current_node_id": "n",
            "variables": {}, "pause": null, "persona": "p", "model": "m", "cwd": "/",
            "steps": [], "flow": null, "created_at": "t", "updated_at": "t"}"#,
    )
    .unwrap();

    assert!(list_runs(&s).items.is_empty());
    save_run(&mut s, &value);
    assert_eq!(list_runs(&s).items.len(), 1);
    assert_eq!(load_run(&s, "r1").unwrap()["id"], "r1");
    assert_eq!(load_run(&s, "r1").unwrap(), value);
    assert!(load_run(&s, "missing").is_none());
    save_run(&mut s, &value);
    assert_eq!(list_runs(&s).items.len(), 1);
}

#[test]
fn docs_round_trip() {
    let (_dir, mut s) = temp_store();
    assert!(get_doc(&s, "scheduled_tasks").is_none());
    put_doc(&mut s, "scheduled_tasks", "[]");
    assert_eq!(get_doc(&s, "scheduled_tasks").as_deref(), Some("[]"));
    // upsert replaces
    put_doc(&mut s, "scheduled_tasks", "[1]");
    assert_eq!(get_doc(&s, "scheduled_tasks").as_deref(), Some("[1]"));
    // distinct names are independent
    assert!(get_doc(&s, "keys").is_none());
}

#[test]
fn wal_mode_enabled() {
    let (_dir, conn) = temp_store();
    let mode: String = conn.query_row("PRAGMA journal_mode", [], |r| r.get(0)).unwrap();
    assert_eq!(mode.to_lowercase(), "wal");
}

#[test]
fn opening_twice_keeps_the_rows() {
    let dir = tempfile::tempdir().unwrap();
    let path = at(dir.path(), &default_db_path());
    let mut first = open(&path);
    put_doc(&mut first, "keys", "{}");
    let chat = parse(r#"{"id":"c1","messages":[1,2]}"#).unwrap();
    save_chat(&mut first, "c1", &chat);
    let flow_run = parse(r#"{"id":"r1"}"#).unwrap();
    save_run(&mut first, &flow_run);
    run(&mut first, &[put(Key::Meta { key: "k".to_string() }, "v")]).unwrap();
    drop(first);
    let second = open(&path);
    assert_eq!(get_doc(&second, "keys").as_deref(), Some("{}"));
    assert_eq!(load_chats(&second).items, vec![chat]);
    assert_eq!(list_runs(&second).items, vec![flow_run]);
    assert_eq!(count(&second, "SELECT count(*) FROM meta WHERE k='k' AND v='v'"), 1);
    let timeout: i64 = second.query_row("PRAGMA busy_timeout", [], |r| r.get(0)).unwrap();
    assert_eq!(timeout, 5000);
    let sync: i64 = second.query_row("PRAGMA synchronous", [], |r| r.get(0)).unwrap();
    assert_eq!(sync, 1);
}

fn legacy() -> LegacyState {
    let chat = parse(
        r#"{"id":"c1","persona_slug":"p","model_name":"m","cwd":"/","created_at":"t",
            "messages":[{"role":"user","content":"hi"},{"role":"assistant","content":"yo"}]}"#,
    )
    .unwrap();
    let flow_run = r#"{"id":"r1","flow_id":"f","status":"paused","current_node_id":"n","variables":{},
            "pause":null,"persona":"p","model":"m","cwd":"/","steps":[],"flow":null,
            "created_at":"t","updated_at":"t"}"#;
    LegacyState {
        docs: vec![
            LegacyDoc {
                name: "keys".to_string(),
                body: r#"{"version":2,"global":{"FOO":"bar"},"channels":{}}"#.to_string(),
            },
            LegacyDoc { name: "scheduled_tasks".to_string(), body: "[]".to_string() },
        ],
        chats: vec![LegacyChat {
            id: chat["id"].as_str().unwrap().to_string(),
            chat: encode(&chat),
        }],
        flow_runs: vec![LegacyRun { id: "r1".to_string(), body: flow_run.to_string() }],
    }
}

fn run_migration(conn: &mut Connection, migration: &Migration) {
    run(conn, &migration.docs).unwrap();
    run(conn, &migration.chats).unwrap();
    run(conn, &migration.flow_runs).unwrap();
    run(conn, &migration.stamp).unwrap();
}

#[test]
fn migrate_files_to_sqlite_copies_state() {
    let tmp = tempfile::tempdir().unwrap();
    let db = at(tmp.path(), &default_db_path());
    assert_eq!(db, tmp.path().join("agent.db"));
    let mut store = open(&db);
    let migration = migrate_files_to_sqlite(&legacy());
    run_migration(&mut store, &migration);
    assert_eq!(migration.stats.docs, 2, "keys + scheduled_tasks");
    assert_eq!(migration.stats.chats, 1);
    assert_eq!(migration.stats.flow_runs, 1);

    // The rows are in agent.db.
    let conn = Connection::open(&db).unwrap();
    assert_eq!(count(&conn, "SELECT count(*) FROM docs"), 2);
    assert_eq!(count(&conn, "SELECT count(*) FROM chats"), 1);
    assert_eq!(
        count(&conn, "SELECT count(*) FROM messages WHERE chat_id='c1'"),
        2,
        "the chat's two messages were normalized into rows"
    );
    assert_eq!(count(&conn, "SELECT count(*) FROM flow_runs"), 1);

    // The keys document was copied verbatim.
    let keys_body: String = conn
        .query_row("SELECT body FROM docs WHERE name='keys'", [], |r| r.get(0))
        .unwrap();
    assert!(keys_body.contains("\"FOO\":\"bar\""));

    // Idempotent: a second run doesn't duplicate.
    run_migration(&mut store, &migrate_files_to_sqlite(&legacy()));
    assert_eq!(count(&conn, "SELECT count(*) FROM chats"), 1);
    assert_eq!(count(&conn, "SELECT count(*) FROM messages"), 2);

    let marks: String = conn
        .query_row("SELECT v FROM meta WHERE k='migrated_from_files'", [], |r| r.get(0))
        .unwrap();
    assert_eq!(marks, "1");
    let version: String = conn
        .query_row("SELECT v FROM meta WHERE k='schema_version'", [], |r| r.get(0))
        .unwrap();
    assert_eq!(version, "1");
    let all = load_chats(&store).items;
    assert_eq!(all[0]["messages"][1]["content"], "yo");
}

/// The chat files of a data directory, by name.
type ChatFiles = BTreeMap<String, String>;

fn perform(disk: &mut ChatFiles, step: FileStep) {
    match step {
        FileStep::Write { path, body } => {
            assert_eq!(path.folder, Folder::Chats);
            disk.insert(path.name, body);
        }
        FileStep::Remove { path } => {
            assert_eq!(path.folder, Folder::Chats);
            disk.remove(&path.name);
        }
        _ => panic!("a chat is written or removed in one step"),
    }
}

fn load_chat_files(disk: &ChatFiles) -> Vec<Value> {
    let listing = disk
        .keys()
        .map(|name| Some(DirEntry { name: name.clone(), path: name.clone() }))
        .collect();
    let reads = files::json_entries(listing)
        .into_iter()
        .map(|entry| match parse(&disk[&entry.path]) {
            Ok(value) => FileRead::Parsed(value),
            Err(error) => FileRead::Malformed { path: entry.path, error },
        })
        .collect();
    files::load_all(Area::Chats, Some(reads)).items
}

fn sorted(values: Vec<Value>) -> Vec<String> {
    let mut texts: Vec<String> = values.iter().map(|v| v.to_string()).collect();
    texts.sort();
    texts
}

#[test]
fn both_backends_load_one_value_for_each_live_chat() {
    let (_dir, mut s) = temp_store();
    let mut disk = ChatFiles::new();
    let mut live: BTreeMap<String, Value> = BTreeMap::new();
    let ids = ["a", "b", "a.json", "a.b", "..", " "];
    let mut seed: usize = 7;
    for round in 0..120 {
        seed = (seed * 1103 + 12345) % 65536;
        let id = ids[(seed / 16) % ids.len()];
        if seed % 3 == 0 {
            run(&mut s, &chats::delete(id)).unwrap();
            perform(&mut disk, files::delete(id));
            live.remove(id);
        } else {
            let messages: Vec<String> = (0..seed % 4).map(|n| format!("{n}")).collect();
            let text = format!(
                r#"{{"id":"{id}","messages":[{}],"round":{}}}"#,
                messages.join(","),
                round % 2
            );
            let chat = parse(&text).unwrap();
            save_chat(&mut s, id, &chat);
            match files::save(id, Ok(text)) {
                Ok(step) => perform(&mut disk, step),
                Err(_) => panic!("a chat that was encoded is saved"),
            }
            live.insert(id.to_string(), chat);
        }
        let expected = sorted(live.values().cloned().collect());
        assert_eq!(sorted(load_chat_files(&disk)), expected);
        assert_eq!(sorted(load_chats(&s).items), expected);
    }
}

#[test]
fn a_chat_file_without_an_id_is_passed_over() {
    let mut disk = ChatFiles::new();
    match files::save("", Ok("{}".to_string())) {
        Ok(step) => perform(&mut disk, step),
        Err(_) => panic!("a chat that was encoded is saved"),
    }
    assert_eq!(disk.len(), 1);
    assert!(load_chat_files(&disk).is_empty());
}

#[test]
fn the_runs_that_are_listed_are_those_that_load() {
    let (_dir, mut s) = temp_store();
    assert!(list_runs(&s).items.is_empty());
    let ids = ["a", "b", "a.json", "", "b", "c"];
    for (n, id) in ids.iter().enumerate() {
        save_run(&mut s, &parse(&format!(r#"{{"id":"{id}","n":{n}}}"#)).unwrap());
    }
    run(&mut s, &[put(Key::Run { id: "bad".to_string() }, "not json")]).unwrap();
    let stored = ["", "a", "a.json", "b", "bad", "c"];
    let loaded: Vec<Value> = stored.iter().filter_map(|id| load_run(&s, id)).collect();
    assert_eq!(loaded.len(), 5);
    assert_eq!(sorted(list_runs(&s).items), sorted(loaded));
}

#[test]
fn messages_come_back_in_order() {
    let (_dir, mut s) = temp_store();
    let messages: Vec<String> = (0..25).map(|i| format!("{{\"n\":{i}}}")).collect();
    let chat = EncodedChat { meta: "{\"id\":\"c1\"}".to_string(), messages: messages.clone() };
    run(&mut s, &chats::overwrite("c1", &chat)).unwrap();
    let reply = bodies(&s, &chats::messages_query("c1")).unwrap();
    let got: Vec<String> = reply.into_iter().map(|r| r.unwrap()).collect();
    assert_eq!(got, messages);
}

#[test]
fn saving_fewer_messages_drops_the_rest() {
    let (_dir, mut s) = temp_store();
    let long = parse(r#"{"id":"c1","messages":[1,2,3]}"#).unwrap();
    let short = parse(r#"{"id":"c1","messages":[7]}"#).unwrap();
    save_chat(&mut s, "c1", &long);
    save_chat(&mut s, "c2", &long);
    save_chat(&mut s, "c1", &short);
    let all = load_chats(&s).items;
    assert_eq!(all.len(), 2);
    assert!(all.contains(&short));
    assert!(all.contains(&long));
}

#[test]
fn appending_writes_only_new_rows() {
    let (_dir, mut s) = temp_store();
    let first = parse(r#"{"id":"c1","messages":["a","b"]}"#).unwrap();
    let second = parse(r#"{"id":"c1","messages":["a","b","c"]}"#).unwrap();
    save_chat(&mut s, "c1", &first);
    let writes = match chats::append("c1", Ok(encode(&second)), 2) {
        Ok(writes) => writes,
        Err(_) => panic!("a chat that was encoded is saved"),
    };
    assert_eq!(writes.len(), 2);
    run(&mut s, &writes).unwrap();
    assert_eq!(load_chats(&s).items, vec![second.clone()]);
    // A retry leaves what the first one left.
    run(&mut s, &writes).unwrap();
    assert_eq!(load_chats(&s).items, vec![second]);
    // With fewer messages than are stored, the chat is written in full.
    let writes = match chats::append("c1", Ok(encode(&first)), 3) {
        Ok(writes) => writes,
        Err(_) => panic!("a chat that was encoded is saved"),
    };
    run(&mut s, &writes).unwrap();
    assert_eq!(load_chats(&s).items, vec![first]);
    assert!(chats::append("c1", Err("e".to_string()), 0).is_err());
}

#[test]
fn a_chat_with_its_messages_inside_is_loaded() {
    let (_dir, mut s) = temp_store();
    let whole = r#"{"id":"c1","messages":["a"]}"#;
    let write = put(Key::Chat { id: "c1".to_string() }, whole);
    run(&mut s, &[write]).unwrap();
    assert_eq!(load_chats(&s).items, vec![parse(whole).unwrap()]);
    // Messages that have rows of their own take the place of those inside.
    let key = Key::Message { chat_id: "c1".to_string(), seq: 0 };
    run(&mut s, &[put(key, "\"b\"")]).unwrap();
    assert_eq!(load_chats(&s).items, vec![parse(r#"{"id":"c1","messages":["b"]}"#).unwrap()]);
}

#[test]
fn a_message_that_is_not_json_leaves_its_chat_out() {
    let (_dir, mut s) = temp_store();
    save_chat(&mut s, "c1", &parse(r#"{"id":"c1","messages":[1,2]}"#).unwrap());
    let key = Key::Message { chat_id: "c1".to_string(), seq: 1 };
    run(&mut s, &[put(key, "oops")]).unwrap();
    let loaded = load_chats(&s);
    assert!(loaded.items.is_empty());
    assert!(matches!(
        &loaded.warnings[0],
        Warning::Parse { area: Area::Chats, id, .. } if id == "c1"
    ));
}

#[test]
fn malformed_rows_are_left_out_with_a_warning() {
    let (_dir, mut s) = temp_store();
    save_chat(&mut s, "c1", &parse(r#"{"id":"c1"}"#).unwrap());
    let write = put(Key::Chat { id: "c2".to_string() }, "not json");
    run(&mut s, &[write]).unwrap();
    let loaded = load_chats(&s);
    assert_eq!(loaded.items.len(), 1);
    assert_eq!(loaded.warnings.len(), 1);
    assert!(matches!(
        &loaded.warnings[0],
        Warning::Parse { area: Area::Chats, id, .. } if id == "c2"
    ));

    let bad_run = put(Key::Run { id: "r1".to_string() }, "{");
    run(&mut s, &[bad_run]).unwrap();
    let listed = list_runs(&s);
    assert!(listed.items.is_empty());
    assert!(matches!(
        &listed.warnings[0],
        Warning::Parse { area: Area::FlowRuns, id, .. } if id == "r1"
    ));
    assert!(load_run(&s, "r1").is_none());
}

#[test]
fn deleting_takes_the_messages_along() {
    let (_dir, mut s) = temp_store();
    let chat = parse(r#"{"id":"c1","messages":[1,2]}"#).unwrap();
    save_chat(&mut s, "c1", &chat);
    save_chat(&mut s, "c2", &chat);
    put_doc(&mut s, "c1", "kept");
    run(&mut s, &chats::delete("c1")).unwrap();
    run(&mut s, &chats::delete("never there")).unwrap();
    assert_eq!(count(&s, "SELECT count(*) FROM messages WHERE chat_id='c1'"), 0);
    assert_eq!(count(&s, "SELECT count(*) FROM messages WHERE chat_id='c2'"), 2);
    assert_eq!(load_chats(&s).items.len(), 1);
    assert_eq!(get_doc(&s, "c1").as_deref(), Some("kept"));
}

/// A row of the database, as the statements are meant to work on it.
type Slots = BTreeMap<(&'static str, String, u64), String>;

fn slot(key: &Key) -> (&'static str, String, u64) {
    match key {
        Key::Meta { key } => ("meta", key.clone(), 0),
        Key::Doc { name } => ("docs", name.clone(), 0),
        Key::Chat { id } => ("chats", id.clone(), 0),
        Key::Message { chat_id, seq } => ("messages", chat_id.clone(), *seq),
        Key::Run { id } => ("flow_runs", id.clone(), 0),
    }
}

fn apply(slots: &mut Slots, write: &Write) {
    match write {
        Write::Put { key, body } => {
            slots.insert(slot(key), body.clone());
        }
        Write::Delete { key } => {
            slots.remove(&slot(key));
        }
        Write::TrimMessages { chat_id, len } => {
            slots.retain(|k, _| !(k.0 == "messages" && &k.1 == chat_id && k.2 >= *len));
        }
    }
}

fn read_all(conn: &Connection) -> Slots {
    let mut slots = Slots::new();
    let tables: [(&'static str, &str); 5] = [
        ("meta", "SELECT k, 0, v FROM meta"),
        ("docs", "SELECT name, 0, body FROM docs"),
        ("chats", "SELECT id, 0, body FROM chats"),
        ("messages", "SELECT chat_id, seq, body FROM messages"),
        ("flow_runs", "SELECT id, 0, body FROM flow_runs"),
    ];
    for (table, sql) in tables {
        let mut stmt = conn.prepare(sql).unwrap();
        let rows = stmt
            .query_map([], |r| {
                Ok((r.get::<_, String>(0)?, r.get::<_, i64>(1)?, r.get::<_, String>(2)?))
            })
            .unwrap();
        for row in rows {
            let (key, seq, body) = row.unwrap();
            let fresh = slots.insert((table, key, u64::try_from(seq).unwrap()), body);
            assert!(fresh.is_none());
        }
    }
    slots
}

#[test]
fn each_statement_does_to_the_rows_what_it_is_meant_to() {
    let (_dir, mut s) = temp_store();
    let mut slots = Slots::new();
    let mut seed: u64 = 7;
    let ids = ["a", "b", "", "A", "a'b", "\u{e9}\u{1f600}", "x\u{0}y"];
    for step in 0..400 {
        seed = seed.wrapping_mul(6364136223846793005).wrapping_add(1442695040888963407);
        let pick = seed >> 33;
        let id = ids[(pick % 7) as usize].to_string();
        let n = (pick / 7) % 5;
        let body = format!("body {step}");
        let key = match (pick / 35) % 5 {
            0 => Key::Meta { key: id.clone() },
            1 => Key::Doc { name: id.clone() },
            2 => Key::Chat { id: id.clone() },
            3 => Key::Message { chat_id: id.clone(), seq: n },
            _ => Key::Run { id: id.clone() },
        };
        let write = match (pick / 175) % 5 {
            0 | 1 | 2 => Write::Put { key, body },
            3 => Write::Delete { key },
            _ => Write::TrimMessages { chat_id: id, len: n },
        };
        apply(&mut slots, &write);
        run(&mut s, &[write]).unwrap();
        assert_eq!(read_all(&s), slots);
    }
    for id in ids {
        let keys = [
            Key::Meta { key: id.to_string() },
            Key::Doc { name: id.to_string() },
            Key::Chat { id: id.to_string() },
            Key::Message { chat_id: id.to_string(), seq: 1 },
            Key::Run { id: id.to_string() },
        ];
        for key in keys {
            let expected = slots.get(&slot(&key)).cloned();
            assert_eq!(docs::found(one(&s, &Query::Body { key })), expected);
        }
    }
}

#[test]
fn a_statement_that_fails_leaves_an_error() {
    let mut bare = Connection::open_in_memory().unwrap();
    let outcome = run(&mut bare, &docs::put("keys", "{}"));
    assert!(outcome.is_err());
    assert!(docs::put_done(outcome).is_err());
    assert!(get_doc(&bare, "keys").is_none());
    let reply = bodies(&bare, &chats::messages_query("c1"));
    assert!(reply.is_err());
    let row: Fetched<Value> =
        fetched("c1".to_string(), chats::assemble("{}".to_string(), reply).map(|c| decode(&c)));
    assert!(matches!(row, Fetched::Failed { .. }));
}
