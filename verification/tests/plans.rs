//! What the library decides, on given values.

use std::collections::BTreeMap;

use metalcraft_store::backend::{requested, select, Area, Backend, Choice};
use metalcraft_store::chats::{self, EncodedChat};
use metalcraft_store::disk::{DirEntry, FileStep};
use metalcraft_store::docs;
use metalcraft_store::files::{self, FileRead};
use metalcraft_store::flow_runs;
use metalcraft_store::json::{put_member, take_member, Member};
use metalcraft_store::migrate::documents;
use metalcraft_store::paths::{
    default_db_path, has_json_extension, json_file, FilePath, Folder,
};
use metalcraft_store::rows::{collect, fetched, Fetched, Reply, StoreError, Warning};
use metalcraft_store::sql::{Key, Param, Query, Write};

#[test]
fn the_setting_picks_the_backend() {
    assert_eq!(requested(None), Backend::Files);
    assert_eq!(requested(Some("files")), Backend::Files);
    assert_eq!(requested(Some("sqlite")), Backend::Sqlite);
    assert_eq!(requested(Some("SQLITE")), Backend::Files);
    assert_eq!(requested(Some("")), Backend::Files);
}

#[test]
fn a_database_that_cannot_be_had_is_replaced_by_files() {
    assert_eq!(
        select(Some("sqlite"), true),
        Choice { backend: Backend::Sqlite, fell_back: false }
    );
    assert_eq!(
        select(Some("sqlite"), false),
        Choice { backend: Backend::Files, fell_back: true }
    );
    assert_eq!(select(None, true), Choice { backend: Backend::Files, fell_back: false });
}

#[test]
fn every_area_ends_up_in_the_backend_in_use() {
    let areas = [
        Area::Chats,
        Area::FlowRuns,
        Area::Docs,
        Area::Scheduled,
        Area::Keys,
        Area::Gateway,
        Area::Packs,
    ];
    for area in areas {
        assert_eq!(Backend::Sqlite.persists_in(area), Backend::Sqlite);
        assert_eq!(Backend::Files.persists_in(area), Backend::Files);
        assert_eq!(Backend::Files.facade(area), Backend::Files);
    }
    assert_eq!(Backend::Sqlite.facade(Area::Chats), Backend::Sqlite);
    assert_eq!(Backend::Sqlite.facade(Area::FlowRuns), Backend::Sqlite);
    assert_eq!(Backend::Sqlite.facade(Area::Docs), Backend::Sqlite);
    assert_eq!(Backend::Sqlite.facade(Area::Keys), Backend::Files);
    assert_eq!(Area::Scheduled.document(), Some("scheduled_tasks"));
    assert_eq!(Area::Keys.document(), Some("keys"));
    assert_eq!(Area::Gateway.document(), Some("gateway_channels"));
    assert_eq!(Area::Packs.document(), Some("integration_packs"));
    assert_eq!(Area::Chats.document(), None);
}

fn is_at(path: &FilePath, folder: Folder, name: &str) -> bool {
    path.folder == folder && path.name == name
}

#[test]
fn extensions_are_those_of_the_standard_library() {
    let names = [
        "", ".", "..", "json", ".json", "..json", "a.json", "a.b.json", "a.json.bak", "a.JSON",
        "ajson", "a.json ", "\u{e9}.json", ".a.json", "a.jso", "jsonx.json",
    ];
    for name in names {
        let expected = std::path::Path::new(name).extension().and_then(|x| x.to_str());
        assert_eq!(has_json_extension(name), expected == Some("json"), "{name}");
    }
}

#[test]
fn the_layout_of_the_data_directory() {
    assert!(is_at(&default_db_path(), Folder::Data, "agent.db"));
    assert_eq!(Folder::Data.name(), None);
    assert_eq!(Folder::Chats.name(), Some("chats"));
    assert_eq!(Folder::Runs.name(), Some("runs"));
    assert!(is_at(&json_file(Folder::Chats, "c1"), Folder::Chats, "c1.json"));
    assert!(is_at(&json_file(Folder::Data, "keys"), Folder::Data, "keys.json"));
    for id in ["", "..", "a/b", "/a", "C:x", "\\x"] {
        assert!(is_at(&json_file(Folder::Runs, id), Folder::Runs, &format!("{id}.json")));
    }
}

#[test]
fn chat_files_are_saved_listed_and_deleted_by_id() {
    assert!(matches!(
        files::save("c1", Ok("{}".to_string())),
        Ok(FileStep::Write { path, body }) if is_at(&path, Folder::Chats, "c1.json") && body == "{}"
    ));
    assert!(matches!(
        files::delete("c1"),
        FileStep::Remove { path } if is_at(&path, Folder::Chats, "c1.json")
    ));
    let entry = |name: &str, path: u32| Some(DirEntry { name: name.to_string(), path });
    let listing = vec![
        entry("c2.json", 1),
        None,
        entry("notes.txt", 2),
        entry(".json", 3),
        entry("c1.json", 4),
    ];
    let kept = files::json_entries(listing);
    assert_eq!(kept.iter().map(|e| e.path).collect::<Vec<u32>>(), vec![1, 4]);
    assert_eq!(kept[0].name, "c2.json");
    assert_eq!(kept[1].name, "c1.json");
}

#[test]
fn flow_run_files_are_saved_by_id() {
    assert!(matches!(
        files::save_run("r1", Ok::<String, String>("{}".to_string())),
        Ok(FileStep::Write { path, body }) if is_at(&path, Folder::Runs, "r1.json") && body == "{}"
    ));
    assert!(matches!(
        files::save_run("r1", Err("e".to_string())),
        Err(StoreError::Encode(e)) if e == "e"
    ));
}

#[test]
fn a_document_takes_the_place_of_the_old_one_whole() {
    let mut disk: BTreeMap<String, String> = BTreeMap::new();
    disk.insert("keys.json".to_string(), "old".to_string());
    disk.insert("other.json".to_string(), "kept".to_string());
    let mut synced = String::new();
    for step in files::put_doc("keys", "new") {
        match step {
            FileStep::Write { path, body } => {
                assert_eq!(path.folder, Folder::Data);
                assert_ne!(path.name, "keys.json", "it is not written in place");
                disk.insert(path.name, body);
            }
            FileStep::Sync { path } => {
                assert!(disk.contains_key(&path.name));
                synced = path.name;
            }
            FileStep::Rename { from, to } => {
                assert_eq!(to.folder, Folder::Data);
                assert_eq!(from.name, synced);
                let body = disk.remove(&from.name).unwrap();
                disk.insert(to.name, body);
            }
            FileStep::Remove { .. } => panic!("nothing is removed"),
        }
        let now = disk["keys.json"].as_str();
        assert!(now == "old" || now == "new");
        assert_eq!(disk["other.json"], "kept");
    }
    assert_eq!(disk["keys.json"], "new");
    assert_eq!(disk.len(), 2);
    assert!(!has_json_extension("keys.json.tmp"));
}

#[test]
fn a_chat_that_cannot_be_encoded_is_not_saved() {
    match files::save("c1", Err("bad".to_string())) {
        Err(Warning::Encode { area, id, error }) => {
            assert_eq!(area, Area::Chats);
            assert_eq!(id, "c1");
            assert_eq!(error, "bad");
        }
        _ => panic!("expected an encoding warning"),
    }
    match chats::save("c1", Err("bad".to_string())) {
        Err(Warning::Encode { area, id, error }) => {
            assert_eq!(area, Area::Chats);
            assert_eq!(id, "c1");
            assert_eq!(error, "bad");
        }
        _ => panic!("expected an encoding warning"),
    }
}

#[test]
fn files_that_cannot_be_read_are_left_out_with_a_warning() {
    let none: Option<Vec<FileRead<u64>>> = None;
    let empty = files::load_all(Area::Chats, none);
    assert!(empty.items.is_empty());
    assert!(empty.warnings.is_empty());

    let loaded = files::load_all(Area::Chats, Some(vec![
        FileRead::Parsed(1),
        FileRead::Malformed { path: "a".to_string(), error: "e1".to_string() },
        FileRead::Unreadable { path: "b".to_string(), error: "e2".to_string() },
        FileRead::Parsed(2),
    ]));
    assert_eq!(loaded.items, vec![1, 2]);
    assert_eq!(loaded.warnings.len(), 2);
    assert!(matches!(&loaded.warnings[0], Warning::ParseFile { area: Area::Chats, path, error }
        if path == "a" && error == "e1"));
    assert!(matches!(&loaded.warnings[1], Warning::ReadFile { area: Area::Chats, path, error }
        if path == "b" && error == "e2"));
}

#[test]
fn a_file_that_cannot_be_removed_gives_a_warning() {
    assert!(files::deleted("p".to_string(), Ok(())).is_none());
    assert!(matches!(
        files::deleted("p".to_string(), Err("e".to_string())),
        Some(Warning::DeleteFile { area: Area::Chats, path, error }) if path == "p" && error == "e"
    ));
}

#[test]
fn listings_keep_what_is_well_formed() {
    let rows = vec![
        Fetched::Decoded(1u64),
        Fetched::Failed { error: "e1".to_string() },
        Fetched::Malformed { id: "x".to_string(), error: "e2".to_string() },
        Fetched::Decoded(2u64),
    ];
    let loaded = collect(Area::FlowRuns, Reply::Rows(rows));
    assert_eq!(loaded.items, vec![1, 2]);
    assert!(matches!(&loaded.warnings[0], Warning::Row { area: Area::FlowRuns, error }
        if error == "e1"));
    assert!(matches!(&loaded.warnings[1], Warning::Parse { area: Area::FlowRuns, id, error }
        if id == "x" && error == "e2"));
    assert_eq!(loaded.warnings.len(), 2);
}

#[test]
fn listings_that_fail_give_nothing() {
    let reply: Reply<u64> = Reply::PrepareFailed { error: "e".to_string() };
    let loaded = chats::load_all(reply);
    assert!(loaded.items.is_empty());
    assert!(matches!(&loaded.warnings[0], Warning::Prepare { area: Area::Chats, error }
        if error == "e"));

    let reply: Reply<u64> = Reply::QueryFailed { error: "e".to_string() };
    let loaded = flow_runs::list(reply);
    assert!(loaded.items.is_empty());
    assert!(matches!(&loaded.warnings[0], Warning::Query { area: Area::FlowRuns, error }
        if error == "e"));
}

#[test]
fn rows_are_told_apart() {
    assert!(matches!(fetched("a".to_string(), Ok(Ok(3u64))), Fetched::Decoded(3)));
    let malformed: Fetched<u64> = fetched("a".to_string(), Ok(Err("e".to_string())));
    assert!(matches!(malformed, Fetched::Malformed { id, error } if id == "a" && error == "e"));
    let failed: Fetched<u64> = fetched("a".to_string(), Err("e".to_string()));
    assert!(matches!(failed, Fetched::Failed { error } if error == "e"));
}

#[test]
fn a_chat_is_put_together_from_its_rows() {
    let rows = vec![Ok("1".to_string()), Ok("2".to_string())];
    let chat = match chats::assemble("m".to_string(), Ok(rows)) {
        Ok(chat) => chat,
        Err(_) => panic!("all rows were read"),
    };
    assert_eq!(chat.meta, "m");
    assert_eq!(chat.messages, vec!["1".to_string(), "2".to_string()]);

    let rows = vec![Ok("1".to_string()), Err("e1".to_string()), Err("e2".to_string())];
    assert_eq!(chats::assemble("m".to_string(), Ok(rows)).err(), Some("e1".to_string()));
    let reply = Err("e".to_string());
    assert_eq!(chats::assemble("m".to_string(), reply).err(), Some("e".to_string()));
}

#[test]
fn the_messages_are_taken_out_of_a_chat() {
    let text = r#" { "id" : "c1", "n": 1.50, "messages": [ {"role": "user"} , "a\u00e9" ] } "#;
    let chat = match chats::split(text) {
        Ok(chat) => chat,
        Err(e) => panic!("{e}"),
    };
    assert_eq!(chat.meta, r#"{"id":"c1","n":1.50}"#);
    assert_eq!(chat.messages, vec![r#"{"role": "user"}"#.to_string(), r#""a\u00e9""#.to_string()]);
    assert_eq!(
        chats::join(&chat).unwrap(),
        r#"{"id":"c1","messages":[{"role": "user"},"a\u00e9"],"n":1.50}"#
    );
}

#[test]
fn a_chat_without_messages_is_stored_as_it_stands() {
    for text in [
        r#"{ "id": "c1" }"#,
        r#"{"id":"c1","messages":[]}"#,
        r#"{"id":"c1","messages":null}"#,
        r#"{"id":"c1","messages":{"a":[1]}}"#,
        "{}",
    ] {
        let chat = match chats::split(text) {
            Ok(chat) => chat,
            Err(e) => panic!("{e}"),
        };
        assert_eq!(chat.meta, text);
        assert!(chat.messages.is_empty());
        assert_eq!(chats::join(&chat).unwrap(), text);
    }
}

#[test]
fn texts_that_are_no_objects_are_refused() {
    for text in ["", "[]", "1", "null", "{", "{} x", r#"{"a":}"#, r#"{"messages":[1,]}"#] {
        assert!(chats::split(text).is_err(), "{text}");
        match chats::save_text("c1", Ok(text.to_string())) {
            Err(Warning::Encode { area: Area::Chats, id, .. }) => assert_eq!(id, "c1"),
            _ => panic!("expected an encoding warning"),
        }
    }
    match chats::save_text("c1", Err("bad".to_string())) {
        Err(Warning::Encode { area: Area::Chats, id, error }) => {
            assert_eq!(id, "c1");
            assert_eq!(error, "bad");
        }
        _ => panic!("expected an encoding warning"),
    }
}

#[test]
fn parts_that_do_not_fit_are_not_put_together() {
    let chat = |meta: &str, messages: &[&str]| EncodedChat {
        meta: meta.to_string(),
        messages: messages.iter().map(|m| m.to_string()).collect(),
    };
    assert!(chats::join(&chat("[]", &["1"])).is_err());
    assert!(chats::join(&chat("{}", &["1", "x"])).is_err());
    assert!(chats::join(&chat("{}", &[""])).is_err());
    assert_eq!(chats::join(&chat("not json", &[])).unwrap(), "not json");
    assert_eq!(
        chats::join(&chat(r#"{"messages":7}"#, &[" 1 ", "2"])).unwrap(),
        r#"{"messages":[1,2]}"#
    );
}

#[test]
fn members_are_taken_and_put_by_name() {
    let member = |name: &str, text: &str| Member {
        name: name.to_string(),
        text: text.to_string(),
    };
    let members = vec![member("a", "1"), member("b", "2"), member("a", "3"), member("c", "4")];
    let (rest, found) = take_member(members, "a");
    assert_eq!(found, Some("3".to_string()));
    assert_eq!(rest.iter().map(|m| m.name.as_str()).collect::<Vec<&str>>(), vec!["b", "c"]);
    let (rest, found) = take_member(rest, "a");
    assert_eq!(found, None);
    let put = put_member(rest, "b", "9".to_string());
    assert_eq!(put.len(), 2);
    assert_eq!(put[0].name, "c");
    assert_eq!(put[1].name, "b");
    assert_eq!(put[1].text, "9");
}

#[test]
fn writes_that_fail_give_the_error() {
    assert!(matches!(
        flow_runs::save("r1", Err("e".to_string())),
        Err(StoreError::Encode(e)) if e == "e"
    ));
    assert!(matches!(
        flow_runs::saved(Err("e".to_string())),
        Err(StoreError::Database(e)) if e == "e"
    ));
    assert!(flow_runs::saved(Ok::<(), String>(())).is_ok());
    assert!(matches!(
        docs::put_done(Err("e".to_string())),
        Err(StoreError::Database(e)) if e == "e"
    ));
    assert!(matches!(flow_runs::saved(Err(7u64)), Err(StoreError::Database(7))));
    assert!(matches!(
        chats::saved("c1", Err("e".to_string())),
        Some(Warning::Persist { area: Area::Chats, id, error }) if id == "c1" && error == "e"
    ));
    assert!(matches!(
        chats::deleted("c1", Err("e".to_string())),
        Some(Warning::Delete { area: Area::Chats, id, error }) if id == "c1" && error == "e"
    ));
    assert!(chats::saved("c1", Ok(())).is_none());
}

#[test]
fn every_document_is_carried_over() {
    assert_eq!(
        documents(),
        vec!["keys", "scheduled_tasks", "gateway_channels", "integration_packs"]
    );
}

#[test]
fn reads_that_fail_find_nothing() {
    assert_eq!(docs::found(Ok("b".to_string())), Some("b".to_string()));
    assert_eq!(docs::found(Err("e".to_string())), None);
    assert_eq!(flow_runs::loaded(Ok(Ok(1u64))), Some(1));
    let undecodable: Result<Result<u64, String>, String> = Ok(Err("e".to_string()));
    assert_eq!(flow_runs::loaded(undecodable), None);
    let unreadable: Result<Result<u64, String>, String> = Err("e".to_string());
    assert_eq!(flow_runs::loaded(unreadable), None);
}

#[test]
fn statements_carry_their_parameters() {
    let put = Write::Put {
        key: Key::Message { chat_id: "c".to_string(), seq: 4 },
        body: "b".to_string(),
    };
    let params = put.params();
    assert_eq!(params.len(), 3);
    assert!(matches!(&params[0], Param::Text(s) if s == "c"));
    assert!(matches!(&params[1], Param::Integer(4)));
    assert!(matches!(&params[2], Param::Text(s) if s == "b"));
    let trim = Write::TrimMessages { chat_id: "c".to_string(), len: 3 };
    assert!(matches!(&trim.params()[1], Param::Integer(3)));
    assert_eq!(Query::Runs.params().len(), 0);
    assert_eq!(chats::messages_query("c").params().len(), 1);
}

#[test]
fn statements_have_their_texts() {
    let texts = [
        (
            Key::Doc { name: "x".to_string() },
            "INSERT INTO docs(name, body) VALUES(?1, ?2) ON CONFLICT(name) DO UPDATE SET body=excluded.body",
        ),
        (
            Key::Chat { id: "x".to_string() },
            "INSERT INTO chats(id, body) VALUES(?1, ?2) ON CONFLICT(id) DO UPDATE SET body=excluded.body",
        ),
        (
            Key::Run { id: "x".to_string() },
            "INSERT INTO flow_runs(id, body) VALUES(?1, ?2) ON CONFLICT(id) DO UPDATE SET body=excluded.body",
        ),
        (
            Key::Message { chat_id: "x".to_string(), seq: 0 },
            "INSERT INTO messages(chat_id, seq, body) VALUES(?1, ?2, ?3) ON CONFLICT(chat_id, seq) DO UPDATE SET body=excluded.body",
        ),
        (
            Key::Meta { key: "x".to_string() },
            "INSERT INTO meta(k, v) VALUES(?1, ?2) ON CONFLICT(k) DO UPDATE SET v=excluded.v",
        ),
    ];
    for (key, expected) in texts {
        assert_eq!(Write::Put { key, body: String::new() }.sql(), expected);
    }
    let chat = Key::Chat { id: "x".to_string() };
    assert_eq!(Write::Delete { key: chat }.sql(), "DELETE FROM chats WHERE id=?1");
    let message = Key::Message { chat_id: "x".to_string(), seq: 0 };
    assert_eq!(
        Write::Delete { key: message }.sql(),
        "DELETE FROM messages WHERE chat_id=?1 AND seq=?2"
    );
    assert_eq!(docs::get("keys").sql(), "SELECT body FROM docs WHERE name=?1");
    assert_eq!(flow_runs::load("r1").sql(), "SELECT body FROM flow_runs WHERE id=?1");
    assert_eq!(chats::list_query().sql(), "SELECT id, body FROM chats");
    assert_eq!(flow_runs::list_query().sql(), "SELECT id, body FROM flow_runs");
    assert_eq!(
        chats::messages_query("c").sql(),
        "SELECT body FROM messages WHERE chat_id=?1 ORDER BY seq"
    );
}

#[test]
fn a_save_stores_the_text_the_messages_and_the_length() {
    let chat = EncodedChat {
        meta: "m".to_string(),
        messages: vec!["x".to_string(), "y".to_string()],
    };
    let writes = chats::overwrite("c1", &chat);
    assert_eq!(writes.len(), 4);
    assert!(matches!(&writes[0], Write::Put { key: Key::Chat { id }, body }
        if id == "c1" && body == "m"));
    assert!(matches!(&writes[1], Write::Put { key: Key::Message { seq: 0, .. }, body }
        if body == "x"));
    assert!(matches!(&writes[2], Write::Put { key: Key::Message { seq: 1, .. }, body }
        if body == "y"));
    assert!(matches!(&writes[3], Write::TrimMessages { chat_id, len: 2 } if chat_id == "c1"));
}
